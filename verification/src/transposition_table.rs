use vstd::prelude::*;
use vstd::pervasive::VecAdditionalExecFns;

verus! {

/// Number of buckets: a prime a little above three million, so that the
/// truncated 32-bit keys collide rarely for 56-bit position keys.
pub const TABLE_SIZE: usize = 3_000_017;

/// A fixed-capacity, open-addressed, single-probe cache from truncated
/// position keys to encoded score bounds. The most recent write for a bucket
/// wins; there is no collision chaining.
pub struct TranspositionTable {
    keys: Vec<u32>,
    values: Vec<i8>,
}

/// True iff `n` has no divisor other than one and itself.
pub open spec fn is_prime_spec(n: u64) -> bool {
    n >= 2 && forall|f: u64| 2 <= f < n ==> #[trigger] (n % f) != 0
}

impl TranspositionTable {
    pub closed spec fn key_seq(self) -> Seq<u32> {
        self.keys@
    }

    pub closed spec fn value_seq(self) -> Seq<i8> {
        self.values@
    }

    pub open spec fn wf(self) -> bool {
        &&& self.key_seq().len() == TABLE_SIZE
        &&& self.value_seq().len() == TABLE_SIZE
    }

    /// Bucket of a position key: the key reduced modulo the table size.
    pub open spec fn index_spec(key: u64) -> int {
        key as int % (TABLE_SIZE as int)
    }

    pub fn new() -> (r: Self)
        ensures
            r.wf(),
            forall|i: int| 0 <= i < TABLE_SIZE ==> r.key_seq()[i] == u32::MAX,
            forall|i: int| 0 <= i < TABLE_SIZE ==> r.value_seq()[i] == 0i8,
    {
        let mut keys: Vec<u32> = Vec::new();
        let mut values: Vec<i8> = Vec::new();
        let mut i: usize = 0;
        while i < TABLE_SIZE
            invariant
                i <= TABLE_SIZE,
                keys@.len() == i,
                values@.len() == i,
                forall|j: int| 0 <= j < i ==> keys@[j] == u32::MAX,
                forall|j: int| 0 <= j < i ==> values@[j] == 0i8,
            decreases TABLE_SIZE - i,
        {
            keys.push(u32::MAX);
            values.push(0);
            i = i + 1;
        }
        TranspositionTable { keys, values }
    }

    /// Overwrites the bucket of `key` with the truncated key and the encoded
    /// value, unconditionally.
    pub fn put(&mut self, key: u64, value: i8)
        requires
            old(self).wf(),
        ensures
            final(self).wf(),
            final(self).key_seq() == old(self).key_seq().update(
                Self::index_spec(key),
                key as u32,
            ),
            final(self).value_seq() == old(self).value_seq().update(Self::index_spec(key), value),
    {
        let index = Self::index(key);
        self.keys.set(index, key as u32);
        self.values.set(index, value);
    }

    /// Returns the bucket's value exactly when the bucket holds the
    /// truncated form of `key`; a truncated-key collision can answer for a
    /// different position, which callers treat as a soft bound.
    pub fn get(&self, key: u64) -> (r: Option<i8>)
        requires
            self.wf(),
        ensures
            r == if self.key_seq()[Self::index_spec(key)] == key as u32 {
                Some(self.value_seq()[Self::index_spec(key)])
            } else {
                Option::<i8>::None
            },
    {
        let index = Self::index(key);
        if self.keys[index] != key as u32 {
            return None;
        }
        Some(self.values[index])
    }

    /// How many buckets hold a nonzero encoded value, out of how many.
    pub fn utilization(&self) -> (r: (usize, usize))
        requires
            self.wf(),
        ensures
            r.0 == count_nonzero(self.value_seq(), TABLE_SIZE as int),
            r.1 == TABLE_SIZE,
    {
        let mut used: usize = 0;
        let mut i: usize = 0;
        while i < TABLE_SIZE
            invariant
                self.wf(),
                i <= TABLE_SIZE,
                used <= i,
                used == count_nonzero(self.value_seq(), i as int),
            decreases TABLE_SIZE - i,
        {
            if self.values[i] != 0 {
                used = used + 1;
            }
            i = i + 1;
        }
        (used, TABLE_SIZE)
    }

    /// The raw bucket keys, for storage outside the library.
    pub fn keys_vec(&self) -> (r: &Vec<u32>)
        ensures
            r@ == self.key_seq(),
    {
        &self.keys
    }

    /// The raw bucket values, for storage outside the library.
    pub fn values_vec(&self) -> (r: &Vec<i8>)
        ensures
            r@ == self.value_seq(),
    {
        &self.values
    }

    /// Rebuilds a table from stored buckets; refused unless both arrays
    /// have exactly the table's capacity.
    pub fn from_parts(keys: Vec<u32>, values: Vec<i8>) -> (r: Option<TranspositionTable>)
        ensures
            r is Some <==> keys@.len() == TABLE_SIZE && values@.len() == TABLE_SIZE,
            r is Some ==> r->0.wf() && r->0.key_seq() == keys@ && r->0.value_seq() == values@,
    {
        if keys.len() == TABLE_SIZE && values.len() == TABLE_SIZE {
            Some(TranspositionTable { keys, values })
        } else {
            None
        }
    }

    fn index(key: u64) -> (r: usize)
        ensures
            r == Self::index_spec(key),
            r < TABLE_SIZE,
    {
        (key % (TABLE_SIZE as u64)) as usize
    }
}

/// Number of nonzero entries among the first `n` values.
pub open spec fn count_nonzero(s: Seq<i8>, n: int) -> int
    recommends
        n <= s.len(),
    decreases n,
{
    if n <= 0 {
        0
    } else {
        count_nonzero(s, n - 1) + if s[n - 1] != 0i8 {
            1int
        } else {
            0int
        }
    }
}

/// Trial division up to the square root, skipping even candidates after
/// two.
pub fn is_prime(n: u64) -> (r: bool)
    ensures
        r == is_prime_spec(n),
{
    if n <= 1 {
        return false;
    }
    let mut potential_factor: u64 = 2;
    while potential_factor <= n / potential_factor
        invariant
            2 <= potential_factor,
            n >= 2,
            potential_factor == 2 || potential_factor % 2 == 1,
            potential_factor > 2 ==> n % 2 != 0,
            forall|f: u64|
                2 <= f < potential_factor && (f == 2 || f % 2 == 1) ==> #[trigger] (n % f) != 0,
        decreases n - potential_factor,
    {
        proof {
            assert(potential_factor * potential_factor <= n && potential_factor <= n / 2)
                by (nonlinear_arith)
                requires
                    potential_factor <= n / potential_factor,
                    potential_factor >= 2,
                    n >= 2,
            ;
        }
        if n % potential_factor == 0 {
            proof {
                assert(!is_prime_spec(n));
            }
            return false;
        }
        proof {
            assert(potential_factor <= 0xFFFF_FFFFu64) by (nonlinear_arith)
                requires
                    potential_factor * potential_factor <= n,
                    n <= 0xFFFF_FFFF_FFFF_FFFFu64,
                    potential_factor >= 2,
            ;
        }
        potential_factor = potential_factor + (1 + potential_factor % 2);
    }
    proof {
        lemma_no_small_factors_prime(n, potential_factor);
    }
    return true;
}

/// A composite number has a divisor no larger than its square root.
proof fn lemma_composite_has_small_factor(n: u64, f: u64)
    requires
        2 <= f < n,
        n % f == 0,
    ensures
        exists|g: u64| 2 <= g && #[trigger] (g * g) <= n && n % g == 0,
{
    let ni = n as int;
    let fi = f as int;
    let qi = ni / fi;
    vstd::arithmetic::div_mod::lemma_fundamental_div_mod(ni, fi);
    assert(ni == fi * qi);
    assert(qi >= 2) by (nonlinear_arith)
        requires
            ni == fi * qi,
            2 <= fi < ni,
    ;
    vstd::arithmetic::div_mod::lemma_mod_multiples_basic(fi, qi);
    assert(ni % qi == 0);
    let q = (n / f) as u64;
    assert(q == qi && n % q == 0);
    if f * f <= n {
        assert(2 <= f && f * f <= n && n % f == 0);
    } else {
        assert(qi * qi <= ni) by (nonlinear_arith)
            requires
                ni == fi * qi,
                fi * fi > ni,
                fi >= 2,
                qi >= 2,
        ;
        assert(2 <= q && q * q <= n && n % q == 0);
    }
}

/// If trial division found no factor up to the square root, the number is
/// prime.
proof fn lemma_no_small_factors_prime(n: u64, pf: u64)
    requires
        n >= 2,
        pf >= 2,
        pf > n / pf,
        pf == 2 || pf % 2 == 1,
        pf > 2 ==> n % 2 != 0,
        forall|f: u64| 2 <= f < pf && (f == 2 || f % 2 == 1) ==> #[trigger] (n % f) != 0,
    ensures
        is_prime_spec(n),
{
    assert forall|f: u64| 2 <= f < n implies #[trigger] (n % f) != 0 by {
        if n % f == 0 {
            lemma_composite_has_small_factor(n, f);
            let g = choose|g: u64| 2 <= g && #[trigger] (g * g) <= n && n % g == 0;
            assert(g < pf) by (nonlinear_arith)
                requires
                    g * g <= n,
                    pf > n / pf,
                    pf >= 2,
                    g >= 2,
            ;
            if g == 2 || g % 2 == 1 {
                assert(n % g != 0);
            } else {
                // an even divisor larger than two makes the number even
                let ni = n as int;
                let gi = g as int;
                let qi = ni / gi;
                let hi = gi / 2;
                vstd::arithmetic::div_mod::lemma_fundamental_div_mod(ni, gi);
                vstd::arithmetic::div_mod::lemma_fundamental_div_mod(gi, 2);
                assert(ni == gi * qi && gi == 2 * hi);
                assert(ni == (hi * qi) * 2) by (nonlinear_arith)
                    requires
                        ni == gi * qi,
                        gi == 2 * hi,
                ;
                vstd::arithmetic::div_mod::lemma_mod_multiples_basic(hi * qi, 2);
                assert(n % 2 == 0);
                assert(pf > 2) by {
                    assert(g < pf && g > 2);
                }
            }
        }
    }
}

/// Scans upward from `n` for the next prime. The scan is total: if the
/// whole remaining range were composite it would stop at the top of the
/// range, which the last ensures clause records.
pub fn get_prime_greater_than_or_equal(n: u64) -> (r: u64)
    ensures
        n <= r,
        forall|m: u64| n <= m < r ==> !is_prime_spec(m),
        is_prime_spec(r) || r == u64::MAX,
{
    let mut number: u64 = n;
    while number < u64::MAX
        invariant
            n <= number,
            forall|m: u64| n <= m < number ==> !is_prime_spec(m),
        decreases u64::MAX - number,
    {
        if is_prime(number) {
            return number;
        }
        number = number + 1;
    }
    return u64::MAX;
}

} // verus!
