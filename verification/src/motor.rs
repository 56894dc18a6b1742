//! Motors (rigid transformations in projective geometric algebra) as the
//! twist system reads them: fixed-point coefficients, one per basis blade,
//! indexed by the bitmask of the blade's axes.
use vstd::prelude::*;

verus! {

/// The fixed-point value that stands for the coefficient 1.
pub const UNIT: i64 = 1_000_000_000;

/// Number of axes in a blade's bitmask.
pub open spec fn popcount(x: nat) -> nat
    decreases x,
{
    if x == 0 {
        0
    } else {
        (x % 2) + popcount(x / 2)
    }
}

/// Whether reversing a blade with these axes flips its sign: a blade of
/// grade g changes sign under reversal when g(g-1)/2 is odd, that is when
/// g mod 4 is 2 or 3.
pub open spec fn reverse_flips(index: int) -> bool {
    (popcount(index as nat) / 2) % 2 == 1
}

/// The coefficients of the reverse of a motor.
pub open spec fn reversed(coefs: Seq<i64>) -> Seq<i64> {
    Seq::new(
        coefs.len(),
        |i: int|
            if reverse_flips(i) {
                (-coefs[i]) as i64
            } else {
                coefs[i]
            },
    )
}

/// Whether every coefficient is zero.
pub open spec fn all_zero(coefs: Seq<i64>) -> bool {
    forall|i: int| 0 <= i < coefs.len() ==> coefs[i] == 0
}

/// Whether the first nonzero coefficient is negative.
pub open spec fn leading_negative(coefs: Seq<i64>) -> bool {
    exists|i: int|
        0 <= i < coefs.len() && coefs[i] < 0 && forall|j: int| 0 <= j < i ==> coefs[j] == 0
}

/// The coefficients negated.
pub open spec fn negated(coefs: Seq<i64>) -> Seq<i64> {
    Seq::new(coefs.len(), |i: int| (-coefs[i]) as i64)
}

/// The canonical form of a motor: the motor or its negation (which is the
/// same transformation), whichever has its first nonzero coefficient
/// positive; none for the zero motor.
pub open spec fn canonical_coefs(coefs: Seq<i64>) -> Option<Seq<i64>> {
    if all_zero(coefs) {
        None
    } else if leading_negative(coefs) {
        Some(negated(coefs))
    } else {
        Some(coefs)
    }
}

/// Whether the coefficients are those of the identity transformation (the
/// scalar plus or minus one, every other coefficient zero).
pub open spec fn is_ident_coefs(coefs: Seq<i64>) -> bool {
    &&& coefs.len() > 0
    &&& (coefs[0] == UNIT || coefs[0] == -UNIT)
    &&& forall|i: int| 1 <= i < coefs.len() ==> coefs[i] == 0
}

/// No coefficient is `i64::MIN`, so that every coefficient can be negated.
pub open spec fn negatable(coefs: Seq<i64>) -> bool {
    forall|i: int| 0 <= i < coefs.len() ==> coefs[i] != i64::MIN
}

/// A motor in a space of `ndim` dimensions.
#[derive(Debug)]
pub struct Motor {
    ndim: u8,
    coefs: Vec<i64>,
}

impl View for Motor {
    type V = (u8, Seq<i64>);

    closed spec fn view(&self) -> (u8, Seq<i64>) {
        (self.ndim, self.coefs@)
    }
}

/// Number of axes in the bitmask `x`.
fn count_axes(x: usize) -> (r: usize)
    ensures
        r == popcount(x as nat),
{
    let mut y = x;
    let mut c: usize = 0;
    proof {
        lemma_popcount_le(x as nat);
    }
    while y > 0
        invariant
            c + popcount(y as nat) == popcount(x as nat),
            popcount(x as nat) <= x,
        decreases y,
    {
        c = c + y % 2;
        y = y / 2;
    }
    c
}

proof fn lemma_popcount_le(x: nat)
    ensures
        popcount(x) <= x,
    decreases x,
{
    if x > 0 {
        lemma_popcount_le(x / 2);
    }
}

impl Clone for Motor {
    fn clone(&self) -> (r: Self)
        ensures
            r@ == self@,
    {
        proof {
            use_type_invariant(self);
        }
        Motor { ndim: self.ndim, coefs: self.coefs.clone() }
    }
}

impl Motor {
    #[verifier::type_invariant]
    spec fn inv(self) -> bool {
        negatable(self.coefs@)
    }

    /// Returns the identity motor in `ndim` dimensions, with `len`
    /// coefficients.
    pub fn ident(ndim: u8, len: usize) -> (r: Motor)
        requires
            len > 0,
        ensures
            r@.0 == ndim,
            r@.1.len() == len,
            r@.1[0] == UNIT,
            forall|i: int| 1 <= i < len ==> r@.1[i] == 0,
            is_ident_coefs(r@.1),
    {
        let mut coefs: Vec<i64> = Vec::new();
        coefs.push(UNIT);
        while coefs.len() < len
            invariant
                1 <= coefs@.len() <= len,
                coefs@[0] == UNIT,
                forall|i: int| 1 <= i < coefs@.len() ==> coefs@[i] == 0,
            decreases len - coefs@.len(),
        {
            coefs.push(0);
        }
        Motor { ndim, coefs }
    }

    /// Returns the motor with the given coefficients, or `None` if one of
    /// them is `i64::MIN`, whose negation has no `i64`.
    pub fn from_coefs(ndim: u8, coefs: Vec<i64>) -> (r: Option<Motor>)
        ensures
            negatable(coefs@) ==> r is Some && r->0@ == (ndim, coefs@),
            !negatable(coefs@) ==> r is None,
    {
        let mut i: usize = 0;
        while i < coefs.len()
            invariant
                i <= coefs@.len(),
                forall|j: int| 0 <= j < i ==> coefs@[j] != i64::MIN,
            decreases coefs@.len() - i,
        {
            if coefs[i] == i64::MIN {
                return None;
            }
            i = i + 1;
        }
        Some(Motor { ndim, coefs })
    }

    /// Returns the number of dimensions of the space.
    pub fn ndim(&self) -> (r: u8)
        ensures
            r == self@.0,
    {
        self.ndim
    }

    /// Returns the coefficients.
    pub fn coefs(&self) -> (r: &[i64])
        ensures
            r@ == self@.1,
    {
        self.coefs.as_slice()
    }

    /// Returns whether two motors have the same dimensions and coefficients.
    pub fn same_as(&self, other: &Motor) -> (r: bool)
        ensures
            r == (self@ == other@),
    {
        if self.ndim != other.ndim || self.coefs.len() != other.coefs.len() {
            return false;
        }
        let mut i: usize = 0;
        while i < self.coefs.len()
            invariant
                i <= self.coefs@.len(),
                self.coefs@.len() == other.coefs@.len(),
                forall|j: int| 0 <= j < i ==> self.coefs@[j] == other.coefs@[j],
            decreases self.coefs@.len() - i,
        {
            if self.coefs[i] != other.coefs[i] {
                return false;
            }
            i = i + 1;
        }
        assert(self.coefs@ =~= other.coefs@);
        true
    }

    /// Returns whether the motor is the identity transformation.
    pub fn is_ident(&self) -> (r: bool)
        ensures
            r == is_ident_coefs(self@.1),
    {
        let n = self.coefs.len();
        if n == 0 {
            return false;
        }
        if self.coefs[0] != UNIT && self.coefs[0] != -UNIT {
            return false;
        }
        let mut i: usize = 1;
        while i < n
            invariant
                n == self.coefs@.len(),
                1 <= i <= n,
                forall|j: int| 1 <= j < i ==> self.coefs@[j] == 0,
            decreases n - i,
        {
            if self.coefs[i] != 0 {
                return false;
            }
            i = i + 1;
        }
        true
    }

    /// Returns the reverse of the motor, which undoes its transformation.
    pub fn reverse(&self) -> (r: Motor)
        ensures
            r@ == (self@.0, reversed(self@.1)),
    {
        proof {
            use_type_invariant(self);
        }
        let n = self.coefs.len();
        let mut out: Vec<i64> = Vec::new();
        let mut i: usize = 0;
        while i < n
            invariant
                n == self.coefs@.len(),
                i <= n,
                negatable(self.coefs@),
                out@ == reversed(self.coefs@).take(i as int),
            decreases n - i,
        {
            let g = count_axes(i);
            let c = self.coefs[i];
            let v = if (g / 2) % 2 == 1 {
                -c
            } else {
                c
            };
            out.push(v);
            assert(out@ =~= reversed(self.coefs@).take(i + 1));
            i = i + 1;
        }
        assert(out@ =~= reversed(self.coefs@));
        proof {
            lemma_reversed_negatable(self.coefs@);
        }
        Motor { ndim: self.ndim, coefs: out }
    }

    /// Returns the canonical form of the motor (see `canonical_coefs`), or
    /// `None` for the zero motor.
    pub fn canonicalize(&self) -> (r: Option<Motor>)
        ensures
            match canonical_coefs(self@.1) {
                Some(c) => r is Some && r->0@ == (self@.0, c),
                None => r is None,
            },
    {
        proof {
            use_type_invariant(self);
        }
        let n = self.coefs.len();
        let mut i: usize = 0;
        while i < n && self.coefs[i] == 0
            invariant
                n == self.coefs@.len(),
                i <= n,
                forall|j: int| 0 <= j < i ==> self.coefs@[j] == 0,
            decreases n - i,
        {
            i = i + 1;
        }
        if i == n {
            return None;
        }
        proof {
            lemma_leading(self.coefs@, i as int);
        }
        if self.coefs[i] > 0 {
            return Some(self.clone());
        }
        let mut out: Vec<i64> = Vec::new();
        let mut k: usize = 0;
        while k < n
            invariant
                n == self.coefs@.len(),
                k <= n,
                negatable(self.coefs@),
                out@ == negated(self.coefs@).take(k as int),
            decreases n - k,
        {
            out.push(-self.coefs[k]);
            assert(out@ =~= negated(self.coefs@).take(k + 1));
            k = k + 1;
        }
        assert(out@ =~= negated(self.coefs@));
        assert(negatable(out@));
        Some(Motor { ndim: self.ndim, coefs: out })
    }
}

/// The sign of the first nonzero coefficient decides `leading_negative`.
pub proof fn lemma_leading(coefs: Seq<i64>, i: int)
    requires
        0 <= i < coefs.len(),
        coefs[i] != 0,
        forall|j: int| 0 <= j < i ==> coefs[j] == 0,
    ensures
        leading_negative(coefs) == (coefs[i] < 0),
        !all_zero(coefs),
{
    if leading_negative(coefs) {
        let k = choose|k: int|
            0 <= k < coefs.len() && coefs[k] < 0 && forall|j: int| 0 <= j < k ==> coefs[j] == 0;
        if k < i {
            assert(coefs[k] == 0);
        }
        if k > i {
            assert(coefs[i] == 0);
        }
    }
}

/// Reversal keeps every coefficient negatable.
pub proof fn lemma_reversed_negatable(coefs: Seq<i64>)
    requires
        negatable(coefs),
    ensures
        negatable(reversed(coefs)),
{
}

/// Reversing a motor twice gives it back.
pub proof fn law_reverse_involution(coefs: Seq<i64>)
    requires
        negatable(coefs),
    ensures
        reversed(reversed(coefs)) == coefs,
{
    assert(reversed(reversed(coefs)) =~= coefs);
}

/// The reverse of the identity is the identity, and only the identity
/// reverses to it.
pub proof fn law_reverse_keeps_identity(coefs: Seq<i64>)
    requires
        negatable(coefs),
    ensures
        is_ident_coefs(reversed(coefs)) == is_ident_coefs(coefs),
{
    if coefs.len() > 0 {
        assert(popcount(0) == 0);
        assert(!reverse_flips(0));
        assert(reversed(coefs)[0] == coefs[0]);
        if is_ident_coefs(coefs) {
            assert forall|i: int| 1 <= i < coefs.len() implies reversed(coefs)[i] == 0 by {
                assert(coefs[i] == 0);
            }
        }
        if is_ident_coefs(reversed(coefs)) {
            assert forall|i: int| 1 <= i < coefs.len() implies coefs[i] == 0 by {
                assert(reversed(coefs)[i] == 0);
                assert(coefs[i] != i64::MIN);
            }
        }
    }
}

/// Canonicalizing a canonical motor changes nothing.
pub proof fn law_canonical_idempotent(coefs: Seq<i64>)
    requires
        negatable(coefs),
        canonical_coefs(coefs) is Some,
    ensures
        canonical_coefs(canonical_coefs(coefs)->0) == canonical_coefs(coefs),
{
    let c = canonical_coefs(coefs)->0;
    let i = choose|i: int| 0 <= i < coefs.len() && coefs[i] != 0;
    let k = lemma_first_index(coefs, i);
    lemma_leading(coefs, k);
    assert(c[k] != 0);
    assert forall|j: int| 0 <= j < k implies c[j] == 0 by {
        assert(coefs[j] == 0);
    }
    lemma_leading(c, k);
    assert(c[k] > 0);
}

/// A nonzero coefficient at `i` means there is a first nonzero coefficient.
pub proof fn lemma_first_index(coefs: Seq<i64>, i: int) -> (k: int)
    requires
        0 <= i < coefs.len(),
        coefs[i] != 0,
    ensures
        0 <= k <= i,
        coefs[k] != 0,
        forall|j: int| 0 <= j < k ==> coefs[j] == 0,
    decreases i,
{
    if exists|j: int| 0 <= j < i && coefs[j] != 0 {
        let j = choose|j: int| 0 <= j < i && coefs[j] != 0;
        lemma_first_index(coefs, j)
    } else {
        i
    }
}

/// Only the zero motor has no canonical form.
pub proof fn law_canonical_none_iff_zero(coefs: Seq<i64>)
    ensures
        canonical_coefs(coefs) is None <==> all_zero(coefs),
{
}

} // verus!
