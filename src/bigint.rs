//! Arbitrary-precision integers as sign and magnitude.
//!
//! The magnitude is a sequence of base 2^32 limbs, least significant first.
//! Decimal text goes through `num_bigint`; everything else is computed here.
use vstd::prelude::*;

verus! {

/// The base of one limb.
pub open spec fn limb_base() -> int {
    0x1_0000_0000
}

/// `limb_base()` to the power `k`.
pub open spec fn limb_pow(k: nat) -> int
    decreases k,
{
    if k == 0 {
        1
    } else {
        limb_base() * limb_pow((k - 1) as nat)
    }
}

/// The unsigned value of little-endian base 2^32 limbs.
pub open spec fn limbs_value(limbs: Seq<u32>) -> int
    decreases limbs.len(),
{
    if limbs.len() == 0 {
        0
    } else {
        limbs[0] + limb_base() * limbs_value(limbs.drop_first())
    }
}

/// A magnitude with a sign.
pub open spec fn signed(negative: bool, magnitude: int) -> int {
    if negative {
        -magnitude
    } else {
        magnitude
    }
}

pub open spec fn is_digit(c: char) -> bool {
    '0' <= c <= '9'
}

/// The text after an optional leading `+` or `-`.
pub open spec fn unsigned_part(s: Seq<char>) -> Seq<char> {
    if s.len() > 0 && (s[0] == '-' || s[0] == '+') {
        s.drop_first()
    } else {
        s
    }
}

/// Decimal text: an optional sign, then a digit, then digits and `_` separators.
pub open spec fn is_decimal(s: Seq<char>) -> bool {
    let t = unsigned_part(s);
    &&& t.len() > 0
    &&& is_digit(t[0])
    &&& forall|i: int| 0 <= i < t.len() ==> is_digit(#[trigger] t[i]) || t[i] == '_'
}

/// The value of digits and `_` separators, read in base ten.
pub open spec fn digits_value(t: Seq<char>) -> int
    decreases t.len(),
{
    if t.len() == 0 {
        0
    } else if t.last() == '_' {
        digits_value(t.drop_last())
    } else {
        digits_value(t.drop_last()) * 10 + (t.last() as int - '0' as int)
    }
}

/// The integer that decimal text denotes.
pub open spec fn decimal_value(s: Seq<char>) -> int {
    signed(s.len() > 0 && s[0] == '-', digits_value(unsigned_part(s)))
}

pub open spec fn digit_char(d: int) -> char {
    (d + '0' as int) as char
}

/// The shortest decimal digits of a natural number.
pub open spec fn nat_decimal(n: nat) -> Seq<char>
    decreases n,
{
    if n < 10 {
        seq![digit_char(n as int)]
    } else {
        nat_decimal((n / 10) as nat).push(digit_char((n % 10) as int))
    }
}

/// Decimal text of an integer, with `-` before a negative one.
pub open spec fn int_decimal(i: int) -> Seq<char> {
    if i < 0 {
        seq!['-'] + nat_decimal((-i) as nat)
    } else {
        nat_decimal(i as nat)
    }
}

/// Relies on num_bigint's `FromStr for BigInt` and `BigInt::to_u32_digits`: parsing
/// accepts an optional sign, a digit, then digits and `_`; the digits come back as
/// base 2^32 limbs, least significant first, with the sign apart.
#[verifier::external_body]
fn parse_decimal_limbs(text: &str) -> (r: Option<(bool, Vec<u32>)>)
    ensures
        r is Some <==> is_decimal(text@),
        r matches Some((negative, limbs)) ==> signed(negative, limbs_value(limbs@))
            == decimal_value(text@),
{
    match text.parse::<num_bigint::BigInt>() {
        Ok(n) => {
            let (sign, limbs) = n.to_u32_digits();
            let negative = match sign {
                num_bigint::Sign::Minus => true,
                num_bigint::Sign::NoSign => false,
                num_bigint::Sign::Plus => false,
            };
            Some((negative, limbs))
        },
        Err(_) => None,
    }
}

/// Relies on num_bigint's `BigInt::from_slice` and `Display for BigInt`: the value
/// of the limbs with the sign, written in decimal, `-` first when it is negative.
#[verifier::external_body]
fn limbs_decimal_text(negative: bool, limbs: &Vec<u32>) -> (r: String)
    ensures
        r@ == int_decimal(signed(negative, limbs_value(limbs@))),
{
    let sign = match negative {
        true => num_bigint::Sign::Minus,
        false => num_bigint::Sign::Plus,
    };
    num_bigint::BigInt::from_slice(sign, limbs).to_string()
}

proof fn lemma_limbs_split(s: Seq<u32>, k: nat)
    requires
        k <= s.len(),
    ensures
        limbs_value(s) == limbs_value(s.take(k as int)) + limb_pow(k) * limbs_value(
            s.skip(k as int),
        ),
    decreases k,
{
    if k == 0 {
        assert(s.take(0) =~= Seq::<u32>::empty());
        assert(s.skip(0) =~= s);
    } else {
        let s1 = s.drop_first();
        lemma_limbs_split(s1, (k - 1) as nat);
        assert(s.take(k as int).drop_first() =~= s1.take(k - 1));
        assert(s.skip(k as int) =~= s1.skip(k - 1));
        let a = limbs_value(s1.take(k - 1));
        let c = limbs_value(s.skip(k as int));
        let p = limb_pow((k - 1) as nat);
        assert(limb_base() * (a + p * c) == limb_base() * a + (limb_base() * p) * c)
            by (nonlinear_arith);
    }
}

proof fn lemma_limbs_bound(s: Seq<u32>)
    ensures
        0 <= limbs_value(s) < limb_pow(s.len()),
    decreases s.len(),
{
    if s.len() > 0 {
        let s1 = s.drop_first();
        lemma_limbs_bound(s1);
        let v = limbs_value(s1);
        let p = limb_pow(s1.len());
        let d = s[0] as int;
        assert(0 <= d < limb_base());
        assert(0 <= d + limb_base() * v < limb_base() * p) by (nonlinear_arith)
            requires
                0 <= v < p,
                0 <= d < limb_base(),
                limb_base() == 0x1_0000_0000,
        ;
    }
}

proof fn lemma_limbs_zero(s: Seq<u32>)
    ensures
        limbs_value(s) == 0 <==> forall|i: int| 0 <= i < s.len() ==> s[i] == 0,
    decreases s.len(),
{
    if s.len() > 0 {
        let s1 = s.drop_first();
        lemma_limbs_zero(s1);
        lemma_limbs_bound(s1);
        if limbs_value(s) == 0 {
            assert forall|i: int| 0 <= i < s.len() implies s[i] == 0 by {
                if i > 0 {
                    assert(s[i] == s1[i - 1]);
                }
            }
        }
        if forall|i: int| 0 <= i < s.len() ==> s[i] == 0 {
            assert forall|i: int| 0 <= i < s1.len() implies s1[i] == 0 by {
                assert(s1[i] == s[i + 1]);
            }
        }
    }
}

proof fn lemma_limbs_push_zero(s: Seq<u32>)
    ensures
        limbs_value(s.push(0)) == limbs_value(s),
{
    let t = s.push(0);
    lemma_limbs_split(t, s.len());
    assert(t.take(s.len() as int) =~= s);
    assert(t.skip(s.len() as int) =~= seq![0u32]);
    lemma_two_limbs(0, 0);
}

proof fn lemma_two_limbs(lo: u32, hi: u32)
    ensures
        limbs_value(seq![lo, hi]) == lo + limb_base() * hi,
        limbs_value(seq![lo]) == lo,
{
    let e = Seq::<u32>::empty();
    assert(limbs_value(e) == 0);
    assert(seq![hi].drop_first() =~= e);
    assert(seq![lo].drop_first() =~= e);
    assert(limbs_value(seq![hi]) == hi);
    assert(limbs_value(seq![lo]) == lo);
    assert(seq![lo, hi].drop_first() =~= seq![hi]);
}

proof fn lemma_nat_decimal(n: nat)
    ensures
        nat_decimal(n).len() > 0,
        forall|i: int| 0 <= i < nat_decimal(n).len() ==> is_digit(#[trigger] nat_decimal(n)[i]),
        digits_value(nat_decimal(n)) == n,
    decreases n,
{
    let t = nat_decimal(n);
    if n < 10 {
        let c = digit_char(n as int);
        assert(c as int == n + 48);
        assert(t =~= seq![c]);
        assert(t.drop_last() =~= Seq::<char>::empty());
        assert(digits_value(Seq::<char>::empty()) == 0);
    } else {
        let m = (n / 10) as nat;
        lemma_nat_decimal(m);
        let c = digit_char((n % 10) as int);
        assert(c as int == n % 10 + 48);
        assert(t == nat_decimal(m).push(c));
        assert(t.drop_last() =~= nat_decimal(m));
        assert forall|i: int| 0 <= i < t.len() implies is_digit(#[trigger] t[i]) by {
            if i < t.len() - 1 {
                assert(t[i] == nat_decimal(m)[i]);
            }
        }
    }
}

/// Decimal text of an integer reads back as the integer.
pub proof fn lemma_int_decimal(i: int)
    ensures
        is_decimal(int_decimal(i)),
        decimal_value(int_decimal(i)) == i,
{
    if i < 0 {
        let t = nat_decimal((-i) as nat);
        lemma_nat_decimal((-i) as nat);
        let s = seq!['-'] + t;
        assert(s.drop_first() =~= t);
        assert(unsigned_part(s) == t);
    } else {
        let t = nat_decimal(i as nat);
        lemma_nat_decimal(i as nat);
        assert(is_digit(t[0]));
        assert(unsigned_part(t) == t);
    }
}

/// An integer of any size: a sign and base 2^32 limbs, least significant first.
///
/// Every constructor leaves the magnitude without high zero limbs and zero without
/// a sign, so that equal integers have equal representations.
#[derive(Debug, PartialEq, Eq)]
pub struct BigInt {
    negative: bool,
    magnitude: Vec<u32>,
}

impl View for BigInt {
    type V = int;

    closed spec fn view(&self) -> int {
        signed(self.negative, limbs_value(self.magnitude@))
    }
}

/// The magnitude of an `i64`.
fn magnitude_of(n: i64) -> (r: u64)
    ensures
        r == if n < 0 { -(n as int) } else { n as int },
{
    if n >= 0 {
        n as u64
    } else if n == i64::MIN {
        0x8000_0000_0000_0000u64
    } else {
        (-n) as u64
    }
}

/// Limbs without high zero limbs for a `u64`.
fn limbs_of_u64(m: u64) -> (r: Vec<u32>)
    ensures
        limbs_value(r@) == m,
        r@.len() == 0 || r@.last() != 0,
{
    let lo = (m % 0x1_0000_0000) as u32;
    let hi = (m / 0x1_0000_0000) as u32;
    let mut r: Vec<u32> = Vec::new();
    proof {
        lemma_two_limbs(lo, hi);
        assert(Seq::<u32>::empty().push(lo) =~= seq![lo]);
        assert(seq![lo].push(hi) =~= seq![lo, hi]);
        assert(limbs_value(Seq::<u32>::empty()) == 0);
    }
    if hi != 0 {
        r.push(lo);
        r.push(hi);
    } else if lo != 0 {
        r.push(lo);
    }
    r
}

impl BigInt {
    /// Holds when no limb at the high end is zero, and zero has no sign. Every
    /// `BigInt` keeps it.
    #[verifier::type_invariant]
    pub closed spec fn wf(self) -> bool {
        &&& (self.magnitude@.len() == 0 || self.magnitude@.last() != 0)
        &&& (self.negative ==> self.magnitude@.len() > 0)
    }

    /// The integer `n`.
    pub fn new(n: i64) -> (r: BigInt)
        ensures
            r@ == n as int,
            r.wf(),
    {
        let m = magnitude_of(n);
        let limbs = limbs_of_u64(m);
        BigInt { negative: n < 0, magnitude: limbs }
    }

    /// The integer `n`.
    pub fn from_u64(n: u64) -> (r: BigInt)
        ensures
            r@ == n as int,
            r.wf(),
    {
        BigInt { negative: false, magnitude: limbs_of_u64(n) }
    }

    /// The integer with the given sign and limbs (base 2^32, least significant
    /// first); high zero limbs are dropped, and zero has no sign.
    pub fn from_sign_limbs(negative: bool, limbs: Vec<u32>) -> (r: BigInt)
        ensures
            r@ == signed(negative, limbs_value(limbs@)),
            r.wf(),
    {
        let mut limbs = limbs;
        let ghost given = limbs@;
        while limbs.len() > 0 && limbs[limbs.len() - 1] == 0
            invariant
                limbs_value(limbs@) == limbs_value(given),
            decreases limbs.len(),
        {
            let ghost before = limbs@;
            limbs.pop();
            proof {
                assert(limbs@.push(0) =~= before);
                lemma_limbs_push_zero(limbs@);
            }
        }
        let negative = negative && limbs.len() > 0;
        BigInt { negative, magnitude: limbs }
    }

    /// The integer that decimal text denotes (an optional `-` or `+`, then digits,
    /// `_` allowed after the first digit), or `None` when the text is not of that form.
    pub fn parse(text: &str) -> (r: Option<BigInt>)
        ensures
            r is Some <==> is_decimal(text@),
            r matches Some(b) ==> b@ == decimal_value(text@) && b.wf(),
    {
        match parse_decimal_limbs(text) {
            Some((negative, limbs)) => Some(BigInt::from_sign_limbs(negative, limbs)),
            None => None,
        }
    }

    /// Decimal text of the integer, `-` first when it is negative.
    pub fn to_string(&self) -> (r: String)
        ensures
            r@ == int_decimal(self@),
    {
        limbs_decimal_text(self.negative, &self.magnitude)
    }

    /// Whether two integers are equal.
    pub fn same(&self, other: &BigInt) -> (r: bool)
        ensures
            r == (self@ == other@),
    {
        let a = self.to_string();
        let b = other.to_string();
        proof {
            lemma_int_decimal(self@);
            lemma_int_decimal(other@);
        }
        a == b
    }

    /// Whether the integer is below zero.
    pub fn is_negative(&self) -> (r: bool)
        ensures
            r == (self@ < 0),
    {
        proof {
            use_type_invariant(self);
            lemma_limbs_zero(self.magnitude@);
            lemma_limbs_bound(self.magnitude@);
            if self.negative {
                assert(self.magnitude@[self.magnitude@.len() - 1] != 0);
            }
        }
        self.negative
    }

    /// The sign (-1, 0 or 1) and the limbs of the magnitude: the positional form.
    pub fn to_sign_limbs(&self) -> (r: (i8, Vec<u32>))
        ensures
            r.0 == (if self@ < 0 { -1int } else if self@ == 0 { 0int } else { 1int }),
            signed(r.0 < 0, limbs_value(r.1@)) == self@,
    {
        proof {
            use_type_invariant(self);
            lemma_limbs_zero(self.magnitude@);
            lemma_limbs_bound(self.magnitude@);
            if self.magnitude@.len() > 0 {
                assert(self.magnitude@[self.magnitude@.len() - 1] != 0);
            }
        }
        let sign: i8 = if self.negative {
            -1
        } else if self.magnitude.len() == 0 {
            0
        } else {
            1
        };
        let mut limbs: Vec<u32> = Vec::new();
        let mut i: usize = 0;
        while i < self.magnitude.len()
            invariant
                i <= self.magnitude@.len(),
                limbs@ == self.magnitude@.take(i as int),
            decreases self.magnitude@.len() - i,
        {
            limbs.push(self.magnitude[i]);
            i = i + 1;
            assert(limbs@ =~= self.magnitude@.take(i as int));
        }
        assert(limbs@ =~= self.magnitude@);
        (sign, limbs)
    }

    /// The magnitude as a `u64`, when it fits.
    fn magnitude_u64(&self) -> (r: Option<u64>)
        ensures
            r == (if limbs_value(self.magnitude@) <= u64::MAX {
                Some(limbs_value(self.magnitude@) as u64)
            } else {
                None::<u64>
            }),
    {
        let ghost s = self.magnitude@;
        let n = self.magnitude.len();
        let mut i: usize = 2;
        while i < n
            invariant
                n == s.len(),
                s == self.magnitude@,
                2 <= i,
                forall|j: int| 2 <= j < i && j < n ==> s[j] == 0,
            decreases n - i,
        {
            if self.magnitude[i] != 0 {
                proof {
                    if n >= 2 {
                        lemma_limbs_split(s, 2);
                        lemma_limbs_zero(s.skip(2));
                        assert(s.skip(2)[i - 2] == s[i as int]);
                        lemma_limbs_bound(s.skip(2));
                        lemma_limbs_bound(s.take(2));
                        assert(limb_pow(2) == 0x1_0000_0000_0000_0000) by {
                            reveal_with_fuel(limb_pow, 3);
                        }
                    }
                }
                return None;
            }
            i = i + 1;
        }
        let lo: u64 = if n > 0 { self.magnitude[0] as u64 } else { 0 };
        let hi: u64 = if n > 1 { self.magnitude[1] as u64 } else { 0 };
        proof {
            if n >= 2 {
                lemma_limbs_split(s, 2);
                lemma_limbs_zero(s.skip(2));
                assert forall|j: int| 0 <= j < s.skip(2).len() implies s.skip(2)[j] == 0 by {
                    assert(s.skip(2)[j] == s[j + 2]);
                }
                assert(s.take(2) =~= seq![s[0], s[1]]);
                lemma_two_limbs(s[0], s[1]);
                assert(limb_pow(2) == 0x1_0000_0000_0000_0000) by {
                    reveal_with_fuel(limb_pow, 3);
                }
            } else if n == 1 {
                assert(s =~= seq![s[0]]);
                lemma_two_limbs(s[0], 0);
            } else {
                assert(limbs_value(s) == 0);
            }
        }
        Some(lo + hi * 0x1_0000_0000)
    }

    /// The integer as an `i64`, or `None` when it is out of that range.
    pub fn to_i64(&self) -> (r: Option<i64>)
        ensures
            r == (if i64::MIN <= self@ <= i64::MAX {
                Some(self@ as i64)
            } else {
                None::<i64>
            }),
    {
        proof {
            lemma_limbs_bound(self.magnitude@);
        }
        match self.magnitude_u64() {
            None => None,
            Some(m) => {
                if !self.negative {
                    if m <= i64::MAX as u64 {
                        Some(m as i64)
                    } else {
                        None
                    }
                } else if m < 0x8000_0000_0000_0000u64 {
                    Some(-(m as i64))
                } else if m == 0x8000_0000_0000_0000u64 {
                    Some(i64::MIN)
                } else {
                    None
                }
            },
        }
    }

    /// The integer as a `u64`, or `None` when it is out of that range.
    pub fn to_u64(&self) -> (r: Option<u64>)
        ensures
            r == (if 0 <= self@ <= u64::MAX {
                Some(self@ as u64)
            } else {
                None::<u64>
            }),
    {
        proof {
            lemma_limbs_bound(self.magnitude@);
        }
        match self.magnitude_u64() {
            None => None,
            Some(m) => {
                if !self.negative || m == 0 {
                    Some(m)
                } else {
                    None
                }
            },
        }
    }
}

} // verus!
