//! A cache for a repeated string pattern: one allocation holds the base
//! pattern repeated up to a fixed count, and every smaller repeat count is
//! served as a borrowed slice of that single buffer.
use vstd::prelude::*;

pub mod repeats;

verus! {

use vstd::utf8::encode_utf8;
use vstd::string::StringExecFns;
use crate::repeats::repeat_chars;
use crate::repeats::lemma_repeat_chars_len;
use crate::repeats::lemma_repeat_chars_split;
use crate::repeats::lemma_encode_utf8_concat;
use crate::repeats::lemma_repeat_chars_bytes_len;
use crate::repeats::lemma_encode_utf8_empty;
use crate::repeats::lemma_encode_utf8_injective;
use crate::repeats::lemma_char_boundary_at_seam;

/// The cache result for a repeatable string: a single buffer that holds the
/// base pattern repeated `max_repeats()` times, together with the byte length
/// of one copy of the pattern.
pub struct RepStr {
    cache: String,
    orig_len: usize,
    unit: Ghost<Seq<char>>,
    max: Ghost<nat>,
}

impl RepStr {
    /// The base pattern, as a character sequence.
    pub closed spec fn unit(self) -> Seq<char> {
        self.unit@
    }

    /// The maximum repeat count fixed at construction.
    pub closed spec fn max_repeats(self) -> nat {
        self.max@
    }

    /// The length in bytes of one copy of the base pattern.
    pub open spec fn unit_bytes(self) -> nat {
        encode_utf8(self.unit()).len()
    }

    /// The contents of the whole backing buffer.
    pub closed spec fn buffer(self) -> Seq<char> {
        self.cache@
    }

    /// Well-formedness: the buffer holds exactly `max_repeats()` copies of the
    /// base pattern, the recorded unit length is the pattern's byte length,
    /// and the buffer's byte length fits the machine's size type.
    pub closed spec fn wf(self) -> bool {
        &&& self.cache@ == repeat_chars(self.unit@, self.max@)
        &&& self.orig_len as nat == encode_utf8(self.unit@).len()
        &&& self.max@ * (self.orig_len as nat) <= usize::MAX as nat
    }

    /// Build the cache: one buffer holding `s` repeated `max_repeat_time`
    /// times. An empty `s` and a zero count are both allowed and both give an
    /// empty buffer.
    pub fn new(s: &str, max_repeat_time: usize) -> (res: Self)
        requires
            encode_utf8(s@).len() <= usize::MAX,
            (max_repeat_time as nat) * encode_utf8(s@).len() <= usize::MAX,
        ensures
            res.wf(),
            res.unit() == s@,
            res.max_repeats() == max_repeat_time as nat,
    {
        let ghost u: Seq<char> = s@;
        let mut cache = String::new();
        let mut i: usize = 0;
        while i < max_repeat_time
            invariant
                i <= max_repeat_time,
                cache@ == repeat_chars(u, i as nat),
                u == s@,
            decreases max_repeat_time - i,
        {
            cache.append(s);
            i = i + 1;
        }
        Self { cache, orig_len: s.len(), unit: Ghost(u), max: Ghost(max_repeat_time as nat) }
    }

    /// Extract a borrowed view of the base pattern repeated `repeat` times.
    /// The caller must already have validated `repeat`: the requested byte
    /// length must not exceed the buffer's. The result is always the prefix of
    /// the one backing buffer, never a copy.
    pub fn repeat_unwrap(&self, repeat: usize) -> (res: &str)
        requires
            self.wf(),
            (repeat as nat) * self.unit_bytes() <= self.max_repeats() * self.unit_bytes(),
        ensures
            res@ == repeat_chars(self.unit(), repeat as nat),
            res@ == self.buffer().subrange(0, repeat as int * self.unit().len() as int),
    {
        proof {
            lemma_repeat_chars_bytes_len(self.unit@, self.max@);
            lemma_encode_utf8_empty(self.unit@);
            if self.unit_bytes() == 0 {
                lemma_repeat_chars_len(self.unit@, self.max@);
                lemma_repeat_chars_len(self.unit@, repeat as nat);
                vstd::utf8::encode_utf8_valid_utf8(self.cache@);
                assert(repeat_chars(self.unit@, repeat as nat) =~= Seq::<char>::empty());
            } else {
                assert(repeat <= self.max@) by (nonlinear_arith)
                    requires
                        (repeat as nat) * self.unit_bytes() <= self.max_repeats()
                            * self.unit_bytes(),
                        self.unit_bytes() > 0,
                        self.max_repeats() == self.max@,
                ;
                lemma_repeat_chars_split(self.unit@, repeat as nat, self.max@);
                lemma_encode_utf8_concat(
                    repeat_chars(self.unit@, repeat as nat),
                    repeat_chars(self.unit@, (self.max@ - repeat) as nat),
                );
                lemma_repeat_chars_bytes_len(self.unit@, repeat as nat);
                vstd::utf8::encode_utf8_valid_utf8(repeat_chars(self.unit@, repeat as nat));
                vstd::utf8::encode_utf8_valid_utf8(
                    repeat_chars(self.unit@, (self.max@ - repeat) as nat),
                );
                lemma_char_boundary_at_seam(
                    encode_utf8(repeat_chars(self.unit@, repeat as nat)),
                    encode_utf8(repeat_chars(self.unit@, (self.max@ - repeat) as nat)),
                );
                assert((repeat as nat) * (self.orig_len as nat) <= self.max@ * (
                self.orig_len as nat)) by (nonlinear_arith)
                    requires
                        repeat <= self.max@,
                ;
            }
        }
        let mid = repeat * self.orig_len;
        let res = self.cache.as_str().split_at(mid).0;
        proof {
            assert(encode_utf8(self.cache@).subrange(0, mid as int) =~= encode_utf8(
                repeat_chars(self.unit@, repeat as nat),
            ));
            lemma_encode_utf8_injective(res@, repeat_chars(self.unit@, repeat as nat));
            lemma_repeat_chars_len(self.unit@, repeat as nat);
            if self.unit_bytes() == 0 {
                assert(res@ =~= self.cache@.subrange(0, repeat as int * self.unit@.len() as int));
            } else {
                lemma_repeat_chars_split(self.unit@, repeat as nat, self.max@);
                assert(res@ =~= self.cache@.subrange(0, repeat as int * self.unit@.len() as int));
            }
        }
        res
    }

    /// Extract a borrowed view of the base pattern repeated `repeat` times,
    /// checking the count first: `Some` exactly when the requested byte length
    /// does not exceed the buffer's, `None` otherwise. Never panics and never
    /// allocates.
    pub fn repeat(&self, repeat: usize) -> (res: Option<&str>)
        requires
            self.wf(),
        ensures
            res is Some <==> (repeat as nat) * self.unit_bytes() <= self.max_repeats()
                * self.unit_bytes(),
            (res matches Some(v) ==> v@ == repeat_chars(self.unit(), repeat as nat)),
            (res matches Some(v) ==> v@ == self.buffer().subrange(
                0,
                repeat as int * self.unit().len() as int,
            )),
    {
        proof {
            lemma_repeat_chars_bytes_len(self.unit@, self.max@);
        }
        let buf_len = self.cache.as_str().len();
        match repeat.checked_mul(self.orig_len) {
            Some(total) => {
                if total <= buf_len {
                    Some(self.repeat_unwrap(repeat))
                } else {
                    None
                }
            },
            None => None,
        }
    }
}

/// The conversion capability: build a `RepStr` from a string-like value with
/// a fluent call, exactly as the constructor would.
pub trait IntoRepStr {
    /// The characters of the base pattern this value denotes.
    spec fn base_chars(&self) -> Seq<char>;

    /// Build a cache of this pattern repeated up to `repeat` times;
    /// equivalent to constructing a `RepStr` with `self` as the base pattern.
    fn repeat_cache(self, repeat: usize) -> (res: RepStr) where Self: Sized
        requires
            encode_utf8(self.base_chars()).len() <= usize::MAX,
            (repeat as nat) * encode_utf8(self.base_chars()).len() <= usize::MAX,
        ensures
            res.wf(),
            res.unit() == self.base_chars(),
            res.max_repeats() == repeat as nat,
    ;
}

impl IntoRepStr for &str {
    open spec fn base_chars(&self) -> Seq<char> {
        self@
    }

    fn repeat_cache(self, repeat: usize) -> (res: RepStr) {
        RepStr::new(self, repeat)
    }
}

/// Round trip: for any repeat count `r` up to the construction-time maximum,
/// the checked accessor is owed a value, and that value — the base pattern
/// concatenated with itself `r` times — is the corresponding prefix of the
/// one backing buffer.
pub proof fn lemma_round_trip(c: RepStr, r: nat)
    requires
        c.wf(),
        r <= c.max_repeats(),
    ensures
        r * c.unit_bytes() <= c.max_repeats() * c.unit_bytes(),
        repeat_chars(c.unit(), r) == c.buffer().subrange(0, (r * c.unit().len()) as int),
{
    assert(r * c.unit_bytes() <= c.max_repeats() * c.unit_bytes()) by (nonlinear_arith)
        requires
            r <= c.max_repeats(),
    ;
    lemma_repeat_chars_split(c.unit(), r, c.max_repeats());
    lemma_repeat_chars_len(c.unit(), r);
    lemma_wf_buffer(c);
    assert(repeat_chars(c.unit(), r) =~= c.buffer().subrange(0, (r * c.unit().len()) as int));
}

/// Boundary: the buffer itself is the view for the maximum count, and — as
/// long as the base pattern is nonempty — one past the maximum exceeds the
/// buffer, so the checked accessor is owed `None` there.
pub proof fn lemma_boundary(c: RepStr)
    requires
        c.wf(),
    ensures
        repeat_chars(c.unit(), c.max_repeats()) == c.buffer(),
        c.unit_bytes() > 0 ==> (c.max_repeats() + 1) * c.unit_bytes() > c.max_repeats()
            * c.unit_bytes(),
{
    lemma_wf_buffer(c);
    assert(c.unit_bytes() > 0 ==> (c.max_repeats() + 1) * c.unit_bytes() > c.max_repeats()
        * c.unit_bytes()) by (nonlinear_arith);
}

/// Degenerate base: with an empty base pattern every repeat count is in
/// range and every served view is empty.
pub proof fn lemma_degenerate(c: RepStr, r: nat)
    requires
        c.wf(),
        c.unit_bytes() == 0,
    ensures
        r * c.unit_bytes() <= c.max_repeats() * c.unit_bytes(),
        repeat_chars(c.unit(), r).len() == 0,
{
    lemma_encode_utf8_empty(c.unit());
    lemma_repeat_chars_len(c.unit(), r);
}

/// Conversion equivalence: two well-formed caches built from the same base
/// pattern and the same maximum are indistinguishable through the accessor
/// contracts — same buffer, same unit byte length.
pub proof fn lemma_same_construction_same_behavior(a: RepStr, b: RepStr)
    requires
        a.wf(),
        b.wf(),
        a.unit() == b.unit(),
        a.max_repeats() == b.max_repeats(),
    ensures
        a.buffer() == b.buffer(),
        a.unit_bytes() == b.unit_bytes(),
{
    lemma_wf_buffer(a);
    lemma_wf_buffer(b);
}

/// The backing buffer of a well-formed cache holds exactly `max_repeats()`
/// copies of the base pattern.
pub proof fn lemma_wf_buffer(c: RepStr)
    requires
        c.wf(),
    ensures
        c.buffer() == repeat_chars(c.unit(), c.max_repeats()),
        c.buffer().len() == c.max_repeats() * c.unit().len(),
{
    lemma_repeat_chars_len(c.unit(), c.max_repeats());
}

} // verus!
