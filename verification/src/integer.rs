//! Arbitrary-precision integers, represented as a sign and a sequence of
//! decimal digits with no leading zero. The semantics engine only ever
//! compares such integers and prints them, so the representation is chosen to
//! make equality, ordering and rendering direct.

use vstd::prelude::*;

verus! {

/// Mathematical value of a big-endian decimal digit sequence.
pub open spec fn digits_value(s: Seq<u8>) -> int
    decreases s.len(),
{
    if s.len() == 0 {
        0
    } else {
        digits_value(s.drop_last()) * 10 + s.last()
    }
}

/// A well-formed digit sequence: non-empty, each digit below ten, and no
/// leading zero (a lone zero digit denotes zero).
pub open spec fn digits_wf(s: Seq<u8>) -> bool {
    &&& s.len() >= 1
    &&& (forall|i: int| 0 <= i < s.len() ==> s[i] < 10)
    &&& (s.len() > 1 ==> s[0] != 0)
}

/// An integer of arbitrary magnitude: `neg` gives the sign, `digits` the
/// decimal magnitude, most significant digit first.
#[derive(Clone, Debug, PartialEq, Eq, Hash)]
pub struct IntValue {
    pub neg: bool,
    pub digits: Vec<u8>,
}

impl IntValue {
    /// Canonical form: well-formed digits, and zero is never negative.
    pub open spec fn wf(&self) -> bool {
        &&& digits_wf(self.digits@)
        &&& (self.neg ==> digits_value(self.digits@) != 0)
    }

    /// The mathematical integer this value denotes.
    pub open spec fn value(&self) -> int {
        if self.neg {
            -digits_value(self.digits@)
        } else {
            digits_value(self.digits@)
        }
    }
}

/// Powers of ten.
pub open spec fn pow10(n: nat) -> int
    decreases n,
{
    if n == 0 {
        1
    } else {
        10 * pow10((n - 1) as nat)
    }
}

pub proof fn lemma_pow10_positive(n: nat)
    ensures
        pow10(n) >= 1,
    decreases n,
{
    if n > 0 {
        lemma_pow10_positive((n - 1) as nat);
    }
}

pub proof fn lemma_digits_value_nonneg(s: Seq<u8>)
    requires
        forall|i: int| 0 <= i < s.len() ==> s[i] < 10,
    ensures
        digits_value(s) >= 0,
    decreases s.len(),
{
    if s.len() > 0 {
        lemma_digits_value_nonneg(s.drop_last());
    }
}

/// Upper bound: a sequence of decimal digits denotes less than ten to its
/// length.
pub proof fn lemma_digits_value_upper(s: Seq<u8>)
    requires
        forall|i: int| 0 <= i < s.len() ==> s[i] < 10,
    ensures
        digits_value(s) < pow10(s.len() as nat),
    decreases s.len(),
{
    if s.len() == 0 {
    } else {
        lemma_digits_value_upper(s.drop_last());
    }
}

/// Lower bound: with a non-zero leading digit, the value reaches ten to one
/// less than the length.
pub proof fn lemma_digits_value_lower(s: Seq<u8>)
    requires
        digits_wf(s),
        s[0] != 0,
    ensures
        digits_value(s) >= pow10((s.len() - 1) as nat),
    decreases s.len(),
{
    if s.len() == 1 {
        assert(digits_value(s.drop_last()) == 0);
        assert(digits_value(s) == s[0]);
    } else {
        lemma_digits_value_lower(s.drop_last());
        assert(pow10((s.len() - 1) as nat) == 10 * pow10((s.len() - 2) as nat));
        assert(digits_value(s) == digits_value(s.drop_last()) * 10 + s.last());
        assert(digits_value(s.drop_last()) * 10 >= pow10((s.len() - 2) as nat) * 10);
    }
}

pub proof fn lemma_pow10_increases(m: nat, n: nat)
    requires
        m <= n,
    ensures
        pow10(m) <= pow10(n),
    decreases n,
{
    if m < n {
        lemma_pow10_increases(m, (n - 1) as nat);
        lemma_pow10_positive((n - 1) as nat);
    }
}

/// A shorter well-formed sequence (with non-zero lead) denotes a smaller
/// value than a longer one.
pub proof fn lemma_digits_value_shorter(s1: Seq<u8>, s2: Seq<u8>)
    requires
        digits_wf(s1),
        digits_wf(s2),
        s1.len() < s2.len(),
    ensures
        digits_value(s1) < digits_value(s2),
{
    lemma_digits_value_upper(s1);
    lemma_digits_value_lower(s2);
    lemma_pow10_increases(s1.len() as nat, (s2.len() - 1) as nat);
}

/// Same length: the first differing digit decides the order.
pub proof fn lemma_digits_value_lex(s1: Seq<u8>, s2: Seq<u8>, i: int)
    requires
        s1.len() == s2.len(),
        forall|j: int| 0 <= j < s1.len() ==> s1[j] < 10,
        forall|j: int| 0 <= j < s2.len() ==> s2[j] < 10,
        0 <= i < s1.len(),
        forall|j: int| 0 <= j < i ==> s1[j] == s2[j],
        s1[i] < s2[i],
    ensures
        digits_value(s1) < digits_value(s2),
    decreases s1.len(),
{
    if i == s1.len() - 1 {
        assert(s1.drop_last() =~= s2.drop_last());
    } else {
        lemma_digits_value_lex(s1.drop_last(), s2.drop_last(), i);
    }
}

/// Equal values in canonical form have identical digits.
pub proof fn lemma_digits_value_injective(s1: Seq<u8>, s2: Seq<u8>)
    requires
        digits_wf(s1),
        digits_wf(s2),
        digits_value(s1) == digits_value(s2),
    ensures
        s1 =~= s2,
    decreases s1.len() + s2.len(),
{
    if s1.len() != s2.len() {
        if s1.len() < s2.len() {
            lemma_digits_value_shorter(s1, s2);
        } else {
            lemma_digits_value_shorter(s2, s1);
        }
    } else if s1.len() == 1 {
    } else {
        lemma_digits_value_nonneg(s1.drop_last());
        lemma_digits_value_nonneg(s2.drop_last());
        assert(s1.last() == digits_value(s1) % 10 && s2.last() == digits_value(s2) % 10)
            by (nonlinear_arith)
            requires
                digits_value(s1) == digits_value(s1.drop_last()) * 10 + s1.last(),
                digits_value(s2) == digits_value(s2.drop_last()) * 10 + s2.last(),
                0 <= s1.last() < 10,
                0 <= s2.last() < 10,
                digits_value(s1.drop_last()) >= 0,
                digits_value(s2.drop_last()) >= 0,
        ;
        assert(digits_value(s1.drop_last()) == digits_value(s2.drop_last())) by (nonlinear_arith)
            requires
                digits_value(s1.drop_last()) * 10 + s1.last() == digits_value(s2.drop_last()) * 10
                    + s2.last(),
                s1.last() == s2.last(),
        ;
        lemma_digits_value_injective(s1.drop_last(), s2.drop_last());
        assert(s1 =~= s1.drop_last().push(s1.last()));
        assert(s2 =~= s2.drop_last().push(s2.last()));
    }
}

/// The decimal digits of a machine integer, most significant first.
pub open spec fn dec_digits(n: nat) -> Seq<u8>
    decreases n,
{
    if n < 10 {
        seq![n as u8]
    } else {
        dec_digits(n / 10).push((n % 10) as u8)
    }
}

pub proof fn lemma_dec_digits_wf(n: nat)
    ensures
        digits_wf(dec_digits(n)),
        digits_value(dec_digits(n)) == n,
        n >= 1 ==> dec_digits(n)[0] != 0,
    decreases n,
{
    if n < 10 {
        assert(dec_digits(n) =~= seq![n as u8]);
        assert(digits_value(seq![n as u8]) == digits_value(seq![n as u8].drop_last()) * 10 + n);
        assert(seq![n as u8].drop_last() =~= Seq::<u8>::empty());
    } else {
        lemma_dec_digits_wf(n / 10);
        let s = dec_digits(n / 10);
        let t = s.push((n % 10) as u8);
        assert(t.drop_last() =~= s);
        assert(t[0] == s[0]);
        assert(digits_value(t) == digits_value(s) * 10 + n % 10);
        assert(n / 10 * 10 + n % 10 == n) by (nonlinear_arith);
    }
}

/// Append the decimal digits of `n`, most significant first.
pub fn push_dec_digits(n: u64, out: &mut Vec<u8>)
    ensures
        final(out)@ == old(out)@ + dec_digits(n as nat),
    decreases n,
{
    if n < 10 {
        out.push(n as u8);
        proof {
            assert(out@ =~= old(out)@ + dec_digits(n as nat));
        }
    } else {
        push_dec_digits(n / 10, out);
        out.push((n % 10) as u8);
        proof {
            assert(out@ =~= old(out)@ + dec_digits(n as nat));
        }
    }
}

impl IntValue {
    /// The integer `n`.
    pub fn from_u64(n: u64) -> (r: IntValue)
        ensures
            r.wf(),
            r.value() == n,
    {
        let mut digits: Vec<u8> = Vec::new();
        push_dec_digits(n, &mut digits);
        proof {
            assert(digits@ =~= dec_digits(n as nat));
            lemma_dec_digits_wf(n as nat);
        }
        IntValue { neg: false, digits }
    }

    /// The integer `-n`, for positive `n`.
    pub fn neg_from_u64(n: u64) -> (r: IntValue)
        requires
            n >= 1,
        ensures
            r.wf(),
            r.value() == -(n as int),
    {
        let mut digits: Vec<u8> = Vec::new();
        push_dec_digits(n, &mut digits);
        proof {
            assert(digits@ =~= dec_digits(n as nat));
            lemma_dec_digits_wf(n as nat);
        }
        IntValue { neg: true, digits }
    }

    /// Structural copy.
    pub fn duplicate(&self) -> (r: IntValue)
        ensures
            r.neg == self.neg,
            r.digits@ == self.digits@,
            r.wf() == self.wf(),
            r.value() == self.value(),
    {
        let mut digits: Vec<u8> = Vec::new();
        let mut i: usize = 0;
        while i < self.digits.len()
            invariant
                0 <= i <= self.digits.len(),
                digits@ =~= self.digits@.take(i as int),
            decreases self.digits.len() - i,
        {
            digits.push(self.digits[i]);
            i += 1;
        }
        proof {
            assert(digits@ =~= self.digits@);
        }
        IntValue { neg: self.neg, digits }
    }

    /// Decides whether two integers denote the same value.
    pub fn eq_value(&self, other: &IntValue) -> (r: bool)
        requires
            self.wf(),
            other.wf(),
        ensures
            r == (self.value() == other.value()),
    {
        proof {
            lemma_digits_value_nonneg(self.digits@);
            lemma_digits_value_nonneg(other.digits@);
            if self.digits@ =~= other.digits@ && self.neg == other.neg {
                assert(self.value() == other.value());
            }
            if self.value() == other.value() {
                if self.neg == other.neg {
                    lemma_digits_value_injective(self.digits@, other.digits@);
                }
            }
        }
        if self.neg != other.neg {
            return false;
        }
        if self.digits.len() != other.digits.len() {
            proof {
                if self.value() == other.value() {
                    lemma_digits_value_injective(self.digits@, other.digits@);
                }
            }
            return false;
        }
        let mut i: usize = 0;
        while i < self.digits.len()
            invariant
                self.wf(),
                other.wf(),
                self.neg == other.neg,
                self.digits.len() == other.digits.len(),
                0 <= i <= self.digits.len(),
                forall|j: int| 0 <= j < i ==> self.digits@[j] == other.digits@[j],
            decreases self.digits.len() - i,
        {
            if self.digits[i] != other.digits[i] {
                proof {
                    if self.value() == other.value() {
                        lemma_digits_value_injective(self.digits@, other.digits@);
                    }
                }
                return false;
            }
            i += 1;
        }
        proof {
            assert(self.digits@ =~= other.digits@);
        }
        true
    }

    /// Decides strict numeric order.
    pub fn lt_value(&self, other: &IntValue) -> (r: bool)
        requires
            self.wf(),
            other.wf(),
        ensures
            r == (self.value() < other.value()),
    {
        proof {
            lemma_digits_value_nonneg(self.digits@);
            lemma_digits_value_nonneg(other.digits@);
        }
        if self.neg && !other.neg {
            return true;
        }
        if !self.neg && other.neg {
            return false;
        }
        if self.neg {
            // both negative: larger magnitude is smaller
            lt_magnitude(&other.digits, &self.digits)
        } else {
            lt_magnitude(&self.digits, &other.digits)
        }
    }
}

/// Strict order on digit magnitudes.
fn lt_magnitude(a: &Vec<u8>, b: &Vec<u8>) -> (r: bool)
    requires
        digits_wf(a@),
        digits_wf(b@),
    ensures
        r == (digits_value(a@) < digits_value(b@)),
{
    if a.len() < b.len() {
        proof {
            lemma_digits_value_shorter(a@, b@);
        }
        return true;
    }
    if a.len() > b.len() {
        proof {
            lemma_digits_value_shorter(b@, a@);
        }
        return false;
    }
    let mut i: usize = 0;
    while i < a.len()
        invariant
            digits_wf(a@),
            digits_wf(b@),
            a.len() == b.len(),
            0 <= i <= a.len(),
            forall|j: int| 0 <= j < i ==> a@[j] == b@[j],
        decreases a.len() - i,
    {
        if a[i] < b[i] {
            proof {
                lemma_digits_value_lex(a@, b@, i as int);
            }
            return true;
        }
        if a[i] > b[i] {
            proof {
                lemma_digits_value_lex(b@, a@, i as int);
            }
            return false;
        }
        i += 1;
    }
    proof {
        assert(a@ =~= b@);
    }
    false
}

} // verus!
