//! Scan-policy directives and the index sequences they prescribe.
//!
//! A policy is one of three variants: scan exactly one index (`while`), scan
//! the first `N` sequential indices (`first<N>`), or scan `N` independently
//! drawn random indices (`random<N>`). A policy is parsed from a directive
//! token and turned into a one-shot sequence of concrete indices.

use vstd::prelude::*;

use crate::bip32::{HARDENED_INDEX_BOUNDARY, UnhardenedIndex};
use bitcoin::secp256k1::rand::RngCore;
use bitcoin::secp256k1::rand::rngs::ThreadRng;
use core::ops::Range;

verus! {

/// Declares rand's `ThreadRng` as an opaque outside type, so that a
/// sequence can own its randomness source.
#[verifier::external_type_specification]
#[verifier::external_body]
pub struct ExThreadRng(ThreadRng);

/// Relies on rand's `thread_rng`, re-exported through `bitcoin::secp256k1`:
/// a fresh handle to the calling thread's random generator. Nothing is
/// assumed of the values it will produce.
#[verifier::external_body]
fn fresh_rng() -> ThreadRng {
    bitcoin::secp256k1::rand::thread_rng()
}

/// Relies on rand's `RngCore::next_u32` for `ThreadRng`: a 32-bit value
/// drawn from the generator. Nothing is assumed of which value comes back.
#[verifier::external_body]
fn rng_next_u32(rng: &mut ThreadRng) -> u32 {
    rng.next_u32()
}

/// Failure of directive parsing. Construction of a sequence from an already
/// valid policy never fails.
#[derive(Clone, PartialEq, Eq, Debug)]
pub enum ParseError {
    /// The numeric suffix after `first` or `random` is not a valid unsigned
    /// 32-bit decimal integer (non-digit characters, or overflow).
    InvalidInteger,
    /// The parsed value lies in the hardened half of the 32-bit index space,
    /// which cannot be used as a scan count in this context.
    HardenedIndex,
    /// The token matches none of the recognized directive forms; carries the
    /// offending text.
    UnrecognizedTypeName(String),
}

/// Whether `c` is an ASCII decimal digit.
pub open spec fn is_dec_digit(c: char) -> bool {
    '0' as int <= c as int && c as int <= '9' as int
}

/// The numeric value of an ASCII decimal digit.
pub open spec fn dec_digit_val(c: char) -> int {
    c as int - '0' as int
}

/// Whether every character of `s` is an ASCII decimal digit.
pub open spec fn all_dec_digits(s: Seq<char>) -> bool {
    forall|i: int| 0 <= i < s.len() ==> is_dec_digit(#[trigger] s[i])
}

/// The value of `s` read as an unsigned decimal numeral, most significant
/// digit first.
pub open spec fn dec_value(s: Seq<char>) -> int
    decreases s.len(),
{
    if s.len() == 0 {
        0
    } else {
        dec_value(s.drop_last()) * 10 + dec_digit_val(s.last())
    }
}

/// The decimal value of a digit string is never negative.
proof fn lemma_dec_value_nonneg(s: Seq<char>)
    requires
        all_dec_digits(s),
    ensures
        dec_value(s) >= 0,
    decreases s.len(),
{
    if s.len() > 0 {
        assert forall|i: int| 0 <= i < s.drop_last().len() implies is_dec_digit(
            #[trigger] s.drop_last()[i],
        ) by {
            assert(s.drop_last()[i] == s[i]);
        }
        lemma_dec_value_nonneg(s.drop_last());
        assert(is_dec_digit(s[s.len() - 1]));
    }
}

/// One step of decimal evaluation: appending the digit at position `j`
/// multiplies the value of the first `j` digits by ten and adds it.
proof fn lemma_dec_value_take_succ(s: Seq<char>, j: int)
    requires
        0 <= j < s.len(),
    ensures
        dec_value(s.take(j + 1)) == dec_value(s.take(j)) * 10 + dec_digit_val(s[j]),
{
    assert(s.take(j + 1).drop_last() =~= s.take(j));
    assert(s.take(j + 1).last() == s[j]);
}

/// The value of a prefix of a digit string never exceeds the value of the
/// whole string.
proof fn lemma_dec_value_take_le(s: Seq<char>, j: int)
    requires
        all_dec_digits(s),
        0 <= j <= s.len(),
    ensures
        dec_value(s.take(j)) <= dec_value(s),
    decreases s.len() - j,
{
    if j == s.len() {
        assert(s.take(j) =~= s);
    } else {
        assert forall|k: int| 0 <= k < s.take(j).len() implies is_dec_digit(
            #[trigger] s.take(j)[k],
        ) by {
            assert(s.take(j)[k] == s[k]);
        }
        lemma_dec_value_nonneg(s.take(j));
        lemma_dec_value_take_succ(s, j);
        assert(is_dec_digit(s[j]));
        lemma_dec_value_take_le(s, j + 1);
    }
}

/// Relates the count suffix of a `first`/`random` directive (the text after
/// the prefix) to the parsed count: an empty suffix stands for a count of
/// one; otherwise the suffix must be all decimal digits, fit in 32 bits,
/// and lie below the hardened boundary.
pub open spec fn count_suffix_matches(t: Seq<char>, r: Result<UnhardenedIndex, ParseError>) -> bool {
    if t.len() == 0 {
        match r {
            Ok(c) => c@ == 1,
            Err(_) => false,
        }
    } else if !(all_dec_digits(t) && dec_value(t) <= u32::MAX) {
        match r {
            Err(ParseError::InvalidInteger) => true,
            _ => false,
        }
    } else if dec_value(t) >= HARDENED_INDEX_BOUNDARY {
        match r {
            Err(ParseError::HardenedIndex) => true,
            _ => false,
        }
    } else {
        match r {
            Ok(c) => c@ == dec_value(t),
            Err(_) => false,
        }
    }
}

/// Relates the count suffix of a `first` (when `first` is true) or `random`
/// directive to the parse result: on success the variant matches the prefix
/// and the embedded count is the parsed one.
pub open spec fn count_directive_matches(
    t: Seq<char>,
    first: bool,
    r: Result<ResolverModeType, ParseError>,
) -> bool {
    match r {
        Ok(ResolverModeType::First(c)) => first && count_suffix_matches(t, Ok(c)),
        Ok(ResolverModeType::Random(c)) => !first && count_suffix_matches(t, Ok(c)),
        Ok(ResolverModeType::While) => false,
        Err(e) => count_suffix_matches(t, Err(e)),
    }
}

/// Relates a directive token to the result of parsing it. Exactly five
/// forms are accepted: `while`, `first`, `first<N>`, `random`, `random<N>`;
/// any other token is reported back as unrecognized.
pub open spec fn directive_matches(s: Seq<char>, r: Result<ResolverModeType, ParseError>) -> bool {
    if "first"@.is_prefix_of(s) {
        count_directive_matches(s.skip(5), true, r)
    } else if "random"@.is_prefix_of(s) {
        count_directive_matches(s.skip(6), false, r)
    } else if s == "while"@ {
        match r {
            Ok(m) => m is While,
            Err(_) => false,
        }
    } else {
        match r {
            Err(ParseError::UnrecognizedTypeName(t)) => t@ == s,
            _ => false,
        }
    }
}

/// Parses the character range `[from, len)` of `s` as an unsigned 32-bit
/// decimal integer; rejects non-digit characters and values above
/// `u32::MAX`. An empty range yields 0.
fn parse_u32_suffix(s: &str, from: usize) -> (r: Option<u32>)
    requires
        from <= s@.len(),
    ensures
        r is Some <==> all_dec_digits(s@.skip(from as int)) && dec_value(s@.skip(from as int))
            <= u32::MAX,
        r is Some ==> r->0 == dec_value(s@.skip(from as int)),
{
    let ghost t = s@.skip(from as int);
    let n = s.unicode_len();
    let mut acc: u64 = 0;
    let mut i: usize = from;
    while i < n
        invariant
            from <= i <= n,
            n == s@.len(),
            t == s@.skip(from as int),
            acc <= u32::MAX,
            all_dec_digits(t.take(i - from)),
            acc == dec_value(t.take(i - from)),
        decreases n - i,
    {
        let c = s.get_char(i);
        proof {
            assert(t[i - from] == s@[i as int]);
        }
        let cv = c as u32;
        if cv < 48 || cv > 57 {
            proof {
                assert(!is_dec_digit(t[i - from]));
            }
            return None;
        }
        let d = cv - 48;
        proof {
            let j = i - from as int;
            assert(is_dec_digit(t[j]));
            lemma_dec_value_take_succ(t, j);
            assert forall|k: int| 0 <= k < j + 1 implies is_dec_digit(
                #[trigger] t.take(j + 1)[k],
            ) by {
                assert(t.take(j + 1)[k] == t[k]);
                if k < j {
                    assert(t.take(j)[k] == t[k]);
                }
            }
        }
        acc = acc * 10 + d as u64;
        i = i + 1;
        if acc > u32::MAX as u64 {
            proof {
                if all_dec_digits(t) {
                    lemma_dec_value_take_le(t, i - from);
                }
            }
            return None;
        }
    }
    proof {
        assert(t.take(n - from) =~= t);
    }
    Some(acc as u32)
}

/// Parses the count suffix that begins at character `from`: an empty suffix
/// means a count of one, anything else an unsigned 32-bit decimal checked
/// against the hardened boundary.
fn parse_count(s: &str, from: usize) -> (r: Result<UnhardenedIndex, ParseError>)
    requires
        from <= s@.len(),
    ensures
        count_suffix_matches(s@.skip(from as int), r),
{
    let n = s.unicode_len();
    if from == n {
        Ok(UnhardenedIndex::one())
    } else {
        match parse_u32_suffix(s, from) {
            Some(v) => match UnhardenedIndex::from_index(v) {
                Some(idx) => Ok(idx),
                None => Err(ParseError::HardenedIndex),
            },
            None => Err(ParseError::InvalidInteger),
        }
    }
}

/// Tests whether `s` begins with the five characters of `"first"`.
fn has_prefix_first(s: &str) -> (r: bool)
    ensures
        r == "first"@.is_prefix_of(s@),
{
    proof {
        reveal_strlit("first");
    }
    let n = s.unicode_len();
    if n < 5 {
        return false;
    }
    let r = s.get_char(0) == 'f' && s.get_char(1) == 'i' && s.get_char(2) == 'r' && s.get_char(3)
        == 's' && s.get_char(4) == 't';
    proof {
        let p = s@.subrange(0, 5);
        assert(p[0] == s@[0] && p[1] == s@[1] && p[2] == s@[2] && p[3] == s@[3] && p[4] == s@[4]);
        if r {
            assert("first"@ =~= p);
        }
    }
    r
}

/// Tests whether `s` begins with the six characters of `"random"`.
fn has_prefix_random(s: &str) -> (r: bool)
    ensures
        r == "random"@.is_prefix_of(s@),
{
    proof {
        reveal_strlit("random");
    }
    let n = s.unicode_len();
    if n < 6 {
        return false;
    }
    let r = s.get_char(0) == 'r' && s.get_char(1) == 'a' && s.get_char(2) == 'n' && s.get_char(3)
        == 'd' && s.get_char(4) == 'o' && s.get_char(5) == 'm';
    proof {
        let p = s@.subrange(0, 6);
        assert(p[0] == s@[0] && p[1] == s@[1] && p[2] == s@[2] && p[3] == s@[3] && p[4] == s@[4]
            && p[5] == s@[5]);
        if r {
            assert("random"@ =~= p);
        }
    }
    r
}

/// Tests whether `s` is exactly the token `"while"`.
fn equals_while(s: &str) -> (r: bool)
    ensures
        r == (s@ == "while"@),
{
    proof {
        reveal_strlit("while");
    }
    let n = s.unicode_len();
    if n != 5 {
        return false;
    }
    let r = s.get_char(0) == 'w' && s.get_char(1) == 'h' && s.get_char(2) == 'i' && s.get_char(3)
        == 'l' && s.get_char(4) == 'e';
    proof {
        if r {
            assert(s@ =~= "while"@);
        }
    }
    r
}

/// A scanning policy: how many child-key indices to probe, and in what
/// order. Immutable once constructed; its embedded count is always a valid
/// unhardened index.
#[derive(Copy, Clone, PartialEq, Eq, PartialOrd, Ord, Debug)]
pub enum ResolverModeType {
    /// Scan exactly one index, value 0.
    While,
    /// Scan the first `count` indices, 0-based, in ascending order.
    First(UnhardenedIndex),
    /// Scan `count` indices, each independently drawn at random.
    Random(UnhardenedIndex),
}

impl ResolverModeType {
    /// Parses a textual scan directive. Exactly five forms are accepted,
    /// case-sensitively and with no surrounding whitespace: `while`,
    /// `first`, `first<N>`, `random`, `random<N>`, with `N` an unsigned
    /// 32-bit decimal numeral below the hardened boundary.
    pub fn parse(s: &str) -> (r: Result<Self, ParseError>)
        ensures
            directive_matches(s@, r),
    {
        proof {
            reveal_strlit("first");
            reveal_strlit("random");
        }
        if has_prefix_first(s) {
            match parse_count(s, 5) {
                Ok(count) => Ok(ResolverModeType::First(count)),
                Err(e) => Err(e),
            }
        } else if has_prefix_random(s) {
            match parse_count(s, 6) {
                Ok(count) => Ok(ResolverModeType::Random(count)),
                Err(e) => Err(e),
            }
        } else if equals_while(s) {
            Ok(ResolverModeType::While)
        } else {
            Err(ParseError::UnrecognizedTypeName(s.to_owned()))
        }
    }

    /// How many indices the policy prescribes: 1 for `While`, the embedded
    /// count otherwise.
    pub open spec fn spec_count(self) -> int {
        match self {
            ResolverModeType::While => 1,
            ResolverModeType::First(count) => count@ as int,
            ResolverModeType::Random(count) => count@ as int,
        }
    }

    /// Whether indices are drawn at random rather than taken in order.
    pub open spec fn spec_is_random(self) -> bool {
        self is Random
    }

    /// The number of indices to scan. The count of a policy always lies in
    /// the unhardened range, strictly below the hardened boundary.
    pub fn count(self) -> (r: usize)
        ensures
            r == self.spec_count(),
            r < HARDENED_INDEX_BOUNDARY,
    {
        match self {
            ResolverModeType::While => 1usize,
            ResolverModeType::First(count) => count.index() as usize,
            ResolverModeType::Random(count) => count.index() as usize,
        }
    }

    /// The half-open interval `[0, count)` of sequential scan offsets.
    pub fn range(self) -> (r: Range<u32>)
        ensures
            r.start == 0,
            r.end == self.spec_count(),
    {
        let count = self.count();
        Range { start: 0u32, end: count as u32 }
    }

    /// Whether this is the `While` policy.
    pub fn is_while(self) -> (r: bool)
        ensures
            r == (self is While),
    {
        matches!(self, ResolverModeType::While)
    }

    /// Whether this is a `Random` policy.
    pub fn is_random(self) -> (r: bool)
        ensures
            r == self.spec_is_random(),
    {
        matches!(self, ResolverModeType::Random(_))
    }

    /// The full output of a sequence over a non-random policy: the offsets
    /// `0, 1, …, count - 1` in strictly ascending order, a function of the
    /// policy alone.
    pub open spec fn spec_output(self) -> Seq<u32> {
        Seq::new(self.spec_count() as nat, |i: int| i as u32)
    }

    /// A fresh one-shot sequence over this policy, positioned at the start
    /// of the range and owning its own randomness source.
    pub fn into_iter(self) -> (it: ResolverModeIter)
        ensures
            it.spec_mode() == self,
            it.spec_offset() == 0,
    {
        let start = self.range().start;
        ResolverModeIter { mode: self, rand: fresh_rng(), offset: start }
    }
}

impl core::str::FromStr for ResolverModeType {
    type Err = ParseError;

    fn from_str(s: &str) -> Result<Self, ParseError> {
        ResolverModeType::parse(s)
    }
}

/// Determinism of non-random sequences: the value produced at step `k` is
/// `k` itself, a function of the policy and the step alone, so any two
/// sequences created from the same non-random policy produce identical
/// output.
pub proof fn lemma_deterministic_output(m: ResolverModeType)
    requires
        !m.spec_is_random(),
    ensures
        m.spec_output().len() == m.spec_count(),
        forall|k: int| 0 <= k < m.spec_count() ==> m.spec_output()[k] == k,
{
}

/// The one-shot iteration state of a sequence over a policy: the policy, a
/// cursor counting how many values have been produced, and a randomness
/// source used only by `Random` policies.
pub struct ResolverModeIter {
    mode: ResolverModeType,
    rand: ThreadRng,
    offset: u32,
}

impl ResolverModeIter {
    /// The policy this sequence was created from.
    pub closed spec fn spec_mode(self) -> ResolverModeType {
        self.mode
    }

    /// How many values have been produced so far.
    pub closed spec fn spec_offset(self) -> int {
        self.offset as int
    }

    /// Produces the next index, or reports exhaustion once `count` values
    /// have been produced. An exhausted sequence stays exhausted and never
    /// re-emits. For non-random policies the value produced at step `k` is
    /// exactly `k`; for random policies the value is unconstrained, but the
    /// cursor advances the same way, so exactly `count` values are produced
    /// in total.
    pub fn next(&mut self) -> (r: Option<u32>)
        ensures
            final(self).spec_mode() == old(self).spec_mode(),
            old(self).spec_offset() >= old(self).spec_mode().spec_count() ==> {
                &&& r is None
                &&& final(self).spec_offset() == old(self).spec_offset()
            },
            old(self).spec_offset() < old(self).spec_mode().spec_count() ==> {
                &&& r is Some
                &&& final(self).spec_offset() == old(self).spec_offset() + 1
                &&& !old(self).spec_mode().spec_is_random() ==> r->0 == old(
                    self,
                ).spec_mode().spec_output()[old(self).spec_offset()]
            },
    {
        let end = self.mode.range().end;
        if self.offset >= end {
            None
        } else {
            let index = if self.mode.is_random() {
                rng_next_u32(&mut self.rand)
            } else {
                self.offset
            };
            self.offset = self.offset + 1;
            Some(index)
        }
    }
}

} // verus!
