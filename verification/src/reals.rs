//! Reals, and the table through which their arithmetic reaches the evaluator.
//!
//! A real is a 64-bit IEEE 754 binary floating-point number, held here by its bit
//! pattern. What integers alone can tell of a bit pattern is told here: whether it is
//! zero, whether it is a number at all, and which real an integer is. This crate does
//! no floating-point arithmetic of its own. Whatever else it needs to know about reals
//! (what a text reads as, how a real is written, the result of an operation) it asks
//! as a [`RealQuery`], and whoever owns a floating-point unit answers with a
//! [`RealFact`]. The facts gathered so far make a [`RealTable`]. A computation that
//! meets a query the table cannot answer stops and hands the query back; it is run
//! again once the fact has been recorded.

use vstd::prelude::*;
use vstd::arithmetic::power2::{
    lemma2_to64, lemma2_to64_rest, lemma_pow2_adds, lemma_pow2_strictly_increases,
    lemma_pow2_unfold, pow2,
};
use crate::error::{stopped, viewed, Halt, Halted};
use crate::operator::Operator;
use crate::text::string_of;

verus! {

/// A real number, as the bit pattern of a 64-bit IEEE 754 binary floating-point number.
///
/// Two reals are `==` when their bit patterns are the same.
#[derive(Clone, Copy, Debug, PartialEq, Eq, Structural)]
pub struct Real {
    /// The bit pattern: sign, eleven bits of exponent, fifty-two bits of fraction.
    pub bits: u64,
}

impl Real {
    /// The number is zero, positive or negative.
    pub open spec fn zero(self) -> bool {
        self.bits == 0 || self.bits == 0x8000_0000_0000_0000
    }

    /// The bit pattern is no number: all exponent bits are set, and a fraction bit.
    pub open spec fn nan(self) -> bool {
        self.bits & 0x7fff_ffff_ffff_ffff > 0x7ff0_0000_0000_0000
    }

    /// The two reals are equal as numbers: both are numbers, and they have the same
    /// bit pattern or are both zero.
    pub open spec fn same_number(self, other: Real) -> bool {
        !self.nan() && !other.nan() && (self.bits == other.bits || (self.zero() && other.zero()))
    }

    /// The real that an integer of the 32-bit signed range is, exactly. Zero has the
    /// bit pattern zero. An integer of magnitude `m` whose highest binary digit stands
    /// at place `e` has the sign bit of its sign, the exponent `1023 + e`, and as its
    /// fraction the digits of `m` below the highest, at the top of the fraction bits.
    pub open spec fn of_int(whole: int) -> Real {
        let m = if whole < 0 {
            (-whole) as nat
        } else {
            whole as nat
        };
        let e = top_bit(m);
        let sign = if whole < 0 {
            pow2(63)
        } else {
            0
        };
        Real {
            bits: if whole == 0 {
                0
            } else {
                (sign + (1023 + e) * pow2(52) + (m - pow2(e)) * pow2((52 - e) as nat)) as u64
            },
        }
    }

    /// The real with the given bit pattern.
    pub fn from_bits(bits: u64) -> (r: Real)
        ensures
            r.bits == bits,
    {
        Real { bits }
    }

    /// The bit pattern of the real.
    pub fn to_bits(self) -> (bits: u64)
        ensures
            bits == self.bits,
    {
        self.bits
    }

    /// The real that the integer is.
    pub fn from_int(whole: i32) -> (r: Real)
        ensures
            r == Real::of_int(whole as int),
    {
        if whole == 0 {
            return Real { bits: 0 };
        }
        let m: u64 = if whole < 0 {
            (-(whole as i64)) as u64
        } else {
            whole as u64
        };
        let mut e: u64 = 0;
        let mut top: u64 = 1;
        proof {
            lemma2_to64();
        }
        while top <= m / 2
            invariant
                1 <= m <= 0x8000_0000,
                top == pow2(e as nat),
                1 <= top <= m,
                e <= 31,
            decreases m - top,
        {
            proof {
                lemma_pow2_unfold((e + 1) as nat);
                if e >= 31 {
                    lemma_pow2_strictly_increases(31, (e + 1) as nat);
                    lemma2_to64();
                }
            }
            top = top * 2;
            e = e + 1;
        }
        proof {
            lemma_pow2_unfold((e + 1) as nat);
            lemma_top_bit(m as nat, e as nat);
            lemma2_to64();
            lemma2_to64_rest();
        }
        let mut scale: u64 = 1;
        let mut k: u64 = 0;
        while k < 52 - e
            invariant
                e <= 31,
                k <= 52 - e,
                scale == pow2(k as nat),
                scale <= 0x10_0000_0000_0000,
            decreases 52 - e - k,
        {
            proof {
                lemma_pow2_unfold((k + 1) as nat);
                lemma2_to64_rest();
                if k + 1 < 52 {
                    lemma_pow2_strictly_increases((k + 1) as nat, 52);
                }
            }
            scale = scale * 2;
            k = k + 1;
        }
        proof {
            lemma_pow2_adds(e as nat, (52 - e) as nat);
            assert((m - top) * scale < 0x10_0000_0000_0000) by (nonlinear_arith)
                requires
                    0 <= m - top < top,
                    scale > 0,
                    top * scale == 0x10_0000_0000_0000,
            ;
            assert((1023 + e) * 0x10_0000_0000_0000 <= 1054 * 0x10_0000_0000_0000)
                by (nonlinear_arith)
                requires
                    e <= 31,
            ;
        }
        let sign: u64 = if whole < 0 {
            0x8000_0000_0000_0000
        } else {
            0
        };
        let exponent: u64 = (1023 + e) * 0x10_0000_0000_0000;
        let fraction: u64 = (m - top) * scale;
        Real { bits: sign + exponent + fraction }
    }

    /// Whether the bit pattern is no number.
    pub fn is_nan(self) -> (b: bool)
        ensures
            b == self.nan(),
    {
        self.bits & 0x7fff_ffff_ffff_ffff > 0x7ff0_0000_0000_0000
    }

    /// Whether the two reals are equal as numbers.
    pub fn equals(self, other: Real) -> (b: bool)
        ensures
            b == self.same_number(other),
    {
        !self.is_nan() && !other.is_nan() && (self.bits == other.bits || (self.is_zero()
            && other.is_zero()))
    }

    /// Whether the number is zero, positive or negative.
    pub fn is_zero(self) -> (b: bool)
        ensures
            b == self.zero(),
    {
        self.bits == 0 || self.bits == 0x8000_0000_0000_0000
    }
}

/// The place of the highest binary digit of a positive number: the `e` for which the
/// number is at least 2^e and less than 2^(e+1).
pub open spec fn top_bit(m: nat) -> nat
    decreases m,
{
    if m < 2 {
        0
    } else {
        1 + top_bit(m / 2)
    }
}

/// A number between 2^e and 2^(e+1) has its highest binary digit at place `e`.
pub proof fn lemma_top_bit(m: nat, e: nat)
    requires
        pow2(e) <= m < pow2(e + 1),
    ensures
        top_bit(m) == e,
    decreases e,
{
    lemma_pow2_unfold(e + 1);
    if e == 0 {
        lemma2_to64();
    } else {
        lemma_pow2_unfold(e);
        lemma_top_bit(m / 2, (e - 1) as nat);
    }
}

/// A positive number lies between the power of two of its highest binary digit and
/// the next power of two.
pub proof fn lemma_top_bit_bounds(m: nat)
    requires
        m >= 1,
    ensures
        pow2(top_bit(m)) <= m < pow2(top_bit(m) + 1),
    decreases m,
{
    lemma2_to64();
    if m >= 2 {
        lemma_top_bit_bounds(m / 2);
        lemma_pow2_unfold(top_bit(m));
        lemma_pow2_unfold(top_bit(m) + 1);
    }
}

/// Promotion keeps zero apart: the real of an integer is zero just when the integer
/// is, and the real of another integer of the 32-bit signed range carries its sign,
/// an exponent between 1023 and 1054, and a fraction of fifty-two bits.
pub proof fn law_promotion(whole: int)
    requires
        i32::MIN <= whole <= i32::MAX,
    ensures
        Real::of_int(whole).zero() <==> whole == 0,
        whole > 0 ==> 1023 * pow2(52) <= Real::of_int(whole).bits < 1055 * pow2(52),
        whole < 0 ==> pow2(63) + 1023 * pow2(52) <= Real::of_int(whole).bits < pow2(63) + 1055
            * pow2(52),
{
    lemma2_to64();
    lemma2_to64_rest();
    if whole != 0 {
        let m = if whole < 0 {
            (-whole) as nat
        } else {
            whole as nat
        };
        let e = top_bit(m);
        lemma_top_bit_bounds(m);
        if e >= 32 {
            lemma_pow2_strictly_increases(31, e);
        }
        lemma_pow2_adds(e, (52 - e) as nat);
        lemma_pow2_unfold(e + 1);
        let low = (m - pow2(e)) * pow2((52 - e) as nat);
        assert(0 <= low < pow2(52)) by (nonlinear_arith)
            requires
                0 <= m - pow2(e) < pow2(e),
                pow2((52 - e) as nat) > 0,
                pow2(e) * pow2((52 - e) as nat) == pow2(52),
                low == (m - pow2(e)) * pow2((52 - e) as nat),
        ;
        assert(1023 * pow2(52) <= (1023 + e) * pow2(52) <= 1054 * pow2(52)) by (nonlinear_arith)
            requires
                0 <= e <= 31,
                pow2(52) > 0,
        ;
    }
}

/// A question about reals, as contracts speak of it.
pub enum Query {
    /// Which real, if any, does this text read as?
    Parse(Seq<char>),
    /// How is this real written?
    Show(Real),
    /// What does the operator give on these two reals, left and right?
    Combine(Operator, Real, Real),
}

/// An answered question about reals, as contracts speak of it.
pub enum Fact {
    /// The text reads as the real, or as no real at all.
    Parsed(Seq<char>, Option<Real>),
    /// The real is written as the text.
    Shown(Real, Seq<char>),
    /// The operator gives the last real on the first two, left and right.
    Combined(Operator, Real, Real, Real),
}

impl Fact {
    /// The question that the fact answers.
    pub open spec fn question(self) -> Query {
        match self {
            Fact::Parsed(text, _) => Query::Parse(text),
            Fact::Shown(number, _) => Query::Show(number),
            Fact::Combined(operator, left, right, _) => Query::Combine(operator, left, right),
        }
    }
}

/// The first of the facts that answers the question.
pub open spec fn known(facts: Seq<Fact>, query: Query) -> Option<Fact>
    decreases facts.len(),
{
    if facts.len() == 0 {
        None
    } else if facts[0].question() == query {
        Some(facts[0])
    } else {
        known(facts.drop_first(), query)
    }
}

/// What the facts say a text reads as: a real, or no real at all.
pub open spec fn parsed(facts: Seq<Fact>, text: Seq<char>) -> Result<Option<Real>, Halted> {
    match known(facts, Query::Parse(text)) {
        Some(Fact::Parsed(_, number)) => Ok(number),
        _ => Err(Halted::Pending(Query::Parse(text))),
    }
}

/// How the facts say a real is written.
pub open spec fn shown(facts: Seq<Fact>, number: Real) -> Result<Seq<char>, Halted> {
    match known(facts, Query::Show(number)) {
        Some(Fact::Shown(_, text)) => Ok(text),
        _ => Err(Halted::Pending(Query::Show(number))),
    }
}

/// What the facts say an operator gives on two reals.
pub open spec fn combined(facts: Seq<Fact>, operator: Operator, left: Real, right: Real) -> Result<
    Real,
    Halted,
> {
    match known(facts, Query::Combine(operator, left, right)) {
        Some(Fact::Combined(_, _, _, number)) => Ok(number),
        _ => Err(Halted::Pending(Query::Combine(operator, left, right))),
    }
}

/// A question about reals.
#[derive(Debug)]
pub enum RealQuery {
    /// Which real, if any, does this text read as?
    Parse(String),
    /// How is this real written?
    Show(Real),
    /// What does the operator give on these two reals, left and right?
    Combine(Operator, Real, Real),
}

impl View for RealQuery {
    type V = Query;

    open spec fn view(&self) -> Query {
        match self {
            RealQuery::Parse(text) => Query::Parse(text@),
            RealQuery::Show(number) => Query::Show(*number),
            RealQuery::Combine(operator, left, right) => Query::Combine(*operator, *left, *right),
        }
    }
}

/// An answered question about reals.
#[derive(Debug)]
pub enum RealFact {
    /// The text reads as the real, or as no real at all.
    Parsed(String, Option<Real>),
    /// The real is written as the text.
    Shown(Real, String),
    /// The operator gives the last real on the first two, left and right.
    Combined(Operator, Real, Real, Real),
}

impl View for RealFact {
    type V = Fact;

    open spec fn view(&self) -> Fact {
        match self {
            RealFact::Parsed(text, number) => Fact::Parsed(text@, *number),
            RealFact::Shown(number, text) => Fact::Shown(*number, text@),
            RealFact::Combined(operator, left, right, result) => Fact::Combined(
                *operator,
                *left,
                *right,
                *result,
            ),
        }
    }
}

impl RealFact {
    /// Whether the fact answers the question.
    pub fn answers(&self, query: &RealQuery) -> (b: bool)
        ensures
            b == (self@.question() == query@),
    {
        match (self, query) {
            (RealFact::Parsed(text, _), RealQuery::Parse(asked)) => {
                let same = *text == *asked;
                proof {
                    if !same {
                        assert(Query::Parse(text@)->Parse_0 != Query::Parse(asked@)->Parse_0);
                    }
                }
                same
            },
            (RealFact::Shown(number, _), RealQuery::Show(asked)) => *number == *asked,
            (RealFact::Combined(operator, left, right, _), RealQuery::Combine(op, l, r)) => {
                *operator == *op && *left == *l && *right == *r
            },
            _ => false,
        }
    }
}

/// The facts about reals that have been gathered so far, oldest first.
///
/// Where two facts answer one question, the older one counts.
#[derive(Debug)]
pub struct RealTable {
    facts: Vec<RealFact>,
}

impl View for RealTable {
    type V = Seq<Fact>;

    closed spec fn view(&self) -> Seq<Fact> {
        Seq::new(self.facts@.len(), |i: int| self.facts@[i]@)
    }
}

impl RealTable {
    /// A table without facts.
    pub fn new() -> (table: RealTable)
        ensures
            table@ == Seq::<Fact>::empty(),
    {
        let table = RealTable { facts: Vec::new() };
        assert(table@ =~= Seq::<Fact>::empty());
        table
    }

    /// The number of facts in the table.
    pub fn len(&self) -> (n: usize)
        ensures
            n == self@.len(),
    {
        self.facts.len()
    }

    /// Adds a fact at the end of the table.
    pub fn record(&mut self, fact: RealFact)
        ensures
            final(self)@ == old(self)@.push(fact@),
    {
        self.facts.push(fact);
        assert(self@ =~= old(self)@.push(fact@));
    }

    /// What the text reads as, a real or no real at all, if the table says.
    pub fn parse(&self, text: &Vec<char>) -> (r: Result<Option<Real>, Halt>)
        ensures
            stopped(r) == parsed(self@, text@),
    {
        let query = RealQuery::Parse(string_of(text));
        match self.find(&query) {
            Some(RealFact::Parsed(_, number)) => Ok(*number),
            _ => Err(Halt::Pending(query)),
        }
    }

    /// How the real is written, if the table says.
    pub fn show(&self, number: Real) -> (r: Result<String, Halt>)
        ensures
            viewed(r) == shown(self@, number),
    {
        let query = RealQuery::Show(number);
        match self.find(&query) {
            Some(RealFact::Shown(_, text)) => Ok(text.clone()),
            _ => Err(Halt::Pending(query)),
        }
    }

    /// What the operator gives on the two reals, if the table says.
    pub fn combine(&self, operator: Operator, left: Real, right: Real) -> (r: Result<Real, Halt>)
        ensures
            stopped(r) == combined(self@, operator, left, right),
    {
        let query = RealQuery::Combine(operator, left, right);
        match self.find(&query) {
            Some(RealFact::Combined(_, _, _, number)) => Ok(*number),
            _ => Err(Halt::Pending(query)),
        }
    }

    /// The first fact of the table that answers the question.
    pub fn find(&self, query: &RealQuery) -> (found: Option<&RealFact>)
        ensures
            match found {
                Some(fact) => known(self@, query@) == Some(fact@),
                None => known(self@, query@) is None,
            },
    {
        let mut i: usize = 0;
        proof {
            assert(self@.skip(0) =~= self@);
        }
        while i < self.facts.len()
            invariant
                i <= self.facts.len(),
                known(self@, query@) == known(self@.skip(i as int), query@),
            decreases self.facts.len() - i,
        {
            let ghost rest = self@.skip(i as int);
            proof {
                assert(rest[0] == self.facts@[i as int]@);
                assert(rest.drop_first() =~= self@.skip(i + 1));
            }
            if self.facts[i].answers(query) {
                return Some(&self.facts[i]);
            }
            i += 1;
        }
        None
    }
}

} // verus!
