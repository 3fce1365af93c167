//! Integer arithmetic of the Chim standard library.
use vstd::prelude::*;

verus! {

/// Integers usable by the generic numeric helpers.
pub trait Numeric: Sized {
    fn zero() -> Self;
    fn one() -> Self;
    fn from_int(n: i64) -> Self;
    fn to_int(&self) -> i64;
}

impl Numeric for i64 {
    fn zero() -> (r: i64)
        ensures
            r == 0,
    {
        0
    }

    fn one() -> (r: i64)
        ensures
            r == 1,
    {
        1
    }

    fn from_int(n: i64) -> (r: i64)
        ensures
            r == n,
    {
        n
    }

    fn to_int(&self) -> (r: i64)
        ensures
            r == *self,
    {
        *self
    }
}

pub open spec fn abs_spec(n: int) -> int { if n < 0 { -n } else { n } }

pub fn abs(n: i64) -> (r: i64)
    requires
        n > i64::MIN,
    ensures
        r == abs_spec(n as int),
{
    if n < 0 { -n } else { n }
}

pub fn min(a: i64, b: i64) -> (r: i64)
    ensures
        r == (if a < b { a } else { b }),
{
    if a < b { a } else { b }
}

pub fn max(a: i64, b: i64) -> (r: i64)
    ensures
        r == (if a > b { a } else { b }),
{
    if a > b { a } else { b }
}

pub fn clamp(n: i64, min_val: i64, max_val: i64) -> (r: i64)
    ensures
        r == (if n < min_val { min_val } else if n > max_val { max_val } else { n }),
{
    if n < min_val { min_val } else if n > max_val { max_val } else { n }
}

pub fn sign(n: i64) -> (r: i64)
    ensures
        r == (if n < 0 { -1 } else if n > 0 { 1 } else { 0 }),
{
    if n < 0 { -1 } else if n > 0 { 1 } else { 0 }
}

/// Euclid's algorithm on natural numbers.
pub open spec fn gcd_nat(x: nat, y: nat) -> nat
    decreases y,
{
    if y == 0 { x } else { gcd_nat(y, x % y) }
}

/// Greatest common divisor of the absolute values.
pub open spec fn gcd_spec(a: int, b: int) -> int {
    gcd_nat(abs_spec(a) as nat, abs_spec(b) as nat) as int
}

/// Greatest common divisor (non-negative).
pub fn gcd(a: i64, b: i64) -> (r: i64)
    requires
        a > i64::MIN,
        b > i64::MIN,
    ensures
        r == gcd_spec(a as int, b as int),
        r >= 0,
{
    let mut x: i64 = if a < 0 { -a } else { a };
    let mut y: i64 = if b < 0 { -b } else { b };
    while y != 0
        invariant
            x >= 0,
            y >= 0,
            gcd_nat(x as nat, y as nat) == gcd_spec(a as int, b as int),
        decreases y,
    {
        let t = y;
        y = x % y;
        x = t;
    }
    x
}

/// Least common multiple (zero when either argument is zero).
pub fn lcm(a: i64, b: i64) -> (r: i64)
    requires
        a > i64::MIN,
        b > i64::MIN,
        a != 0 && b != 0 ==> i64::MIN <= crate::text::tdiv(a as int, gcd_spec(a as int, b as int)) * b <= i64::MAX,
    ensures
        r == (if a == 0 || b == 0 { 0 } else { crate::text::tdiv(a as int, gcd_spec(a as int, b as int)) * b }),
{
    if a == 0 || b == 0 {
        0
    } else {
        let g = gcd(a, b);
        proof {
            lemma_gcd_pos(abs_spec(a as int) as nat, abs_spec(b as int) as nat);
        }
        (a / g) * b
    }
}

proof fn lemma_gcd_pos(x: nat, y: nat)
    requires
        x != 0 || y != 0,
    ensures
        gcd_nat(x, y) > 0,
    decreases y,
{
    if y != 0 {
        lemma_gcd_pos(y, x % y);
    }
}

/// Euclid's result divides both numbers.
pub proof fn lemma_gcd_nat_divides(x: nat, y: nat)
    requires
        x != 0 || y != 0,
    ensures
        gcd_nat(x, y) > 0,
        x % gcd_nat(x, y) == 0,
        y % gcd_nat(x, y) == 0,
    decreases y,
{
    lemma_gcd_pos(x, y);
    if y != 0 {
        lemma_gcd_nat_divides(y, x % y);
        let g = gcd_nat(x, y) as int;
        let r = (x % y) as int;
        let q = x as int / y as int;
        assert(x == q * y + r) by (nonlinear_arith)
            requires
                y > 0,
                q == x as int / y as int,
                r == x as int % y as int,
        {
        }
        let a = y as int / g;
        let b = r / g;
        assert(y == a * g) by (nonlinear_arith)
            requires
                g > 0,
                y as int % g == 0,
                a == y as int / g,
        {
        }
        assert(r == b * g) by (nonlinear_arith)
            requires
                g > 0,
                r % g == 0,
                b == r / g,
        {
        }
        assert(x == (q * a + b) * g) by (nonlinear_arith)
            requires
                x == q * y + r,
                y == a * g,
                r == b * g,
        {
        }
        assert((x as int) % g == 0) by (nonlinear_arith)
            requires
                g > 0,
                x == (q * a + b) * g,
                q * a + b >= 0,
        {
        }
    }
}

/// Every common divisor of two naturals divides their Euclid result.
pub proof fn lemma_gcd_nat_greatest(x: nat, y: nat, d: int)
    requires
        d > 0,
        (x as int) % d == 0,
        (y as int) % d == 0,
    ensures
        (gcd_nat(x, y) as int) % d == 0,
    decreases y,
{
    if y != 0 {
        let r = (x % y) as int;
        let q = x as int / y as int;
        assert(x == q * y + r) by (nonlinear_arith)
            requires
                y > 0,
                q == x as int / y as int,
                r == x as int % y as int,
        {
        }
        let a = x as int / d;
        let b = y as int / d;
        assert(x == a * d) by (nonlinear_arith)
            requires
                d > 0,
                (x as int) % d == 0,
                a == x as int / d,
        {
        }
        assert(y == b * d) by (nonlinear_arith)
            requires
                d > 0,
                (y as int) % d == 0,
                b == y as int / d,
        {
        }
        assert(r == (a - q * b) * d) by (nonlinear_arith)
            requires
                x == q * y + r,
                x == a * d,
                y == b * d,
        {
        }
        assert(r % d == 0) by (nonlinear_arith)
            requires
                d > 0,
                r == (a - q * b) * d,
                r >= 0,
        {
            vstd::arithmetic::div_mod::lemma_mod_multiples_basic(a - q * b, d);
        }
        lemma_gcd_nat_greatest(y, x % y, d);
    }
}

/// Every positive common divisor of two integers divides their greatest
/// common divisor.
pub proof fn lemma_gcd_greatest(a: int, b: int, d: int)
    requires
        d > 0,
        a % d == 0,
        b % d == 0,
    ensures
        gcd_spec(a, b) % d == 0,
{
    let x = abs_spec(a);
    let y = abs_spec(b);
    assert(x % d == 0) by (nonlinear_arith)
        requires
            d > 0,
            a % d == 0,
            x == a || x == -a,
    {
        let k = a / d;
        assert(a == k * d);
        if x == -a {
            assert(x == (-k) * d);
            vstd::arithmetic::div_mod::lemma_mod_multiples_basic(-k, d);
        }
    }
    assert(y % d == 0) by (nonlinear_arith)
        requires
            d > 0,
            b % d == 0,
            y == b || y == -b,
    {
        let k = b / d;
        assert(b == k * d);
        if y == -b {
            assert(y == (-k) * d);
            vstd::arithmetic::div_mod::lemma_mod_multiples_basic(-k, d);
        }
    }
    lemma_gcd_nat_greatest(x as nat, y as nat, d);
}

/// The greatest common divisor of two integers, not both zero, is positive
/// and divides each of them.
pub proof fn lemma_gcd_divides(a: int, b: int)
    requires
        a != 0 || b != 0,
    ensures
        gcd_spec(a, b) > 0,
        a % gcd_spec(a, b) == 0,
        b % gcd_spec(a, b) == 0,
{
    let x = abs_spec(a) as nat;
    let y = abs_spec(b) as nat;
    lemma_gcd_nat_divides(x, y);
    let g = gcd_spec(a, b);
    assert(a % g == 0) by (nonlinear_arith)
        requires
            g > 0,
            (x as int) % g == 0,
            x == a || x == -a,
    {
        let k = x as int / g;
        assert(x == k * g);
        if x == -a {
            assert(a == (-k) * g);
        }
    }
    assert(b % g == 0) by (nonlinear_arith)
        requires
            g > 0,
            (y as int) % g == 0,
            y == b || y == -b,
    {
        let k = y as int / g;
        assert(y == k * g);
        if y == -b {
            assert(b == (-k) * g);
        }
    }
}

pub fn is_even(n: i64) -> (r: bool)
    ensures
        r == (n % 2 == 0),
{
    n % 2 == 0
}

pub fn is_odd(n: i64) -> (r: bool)
    ensures
        r == (n % 2 != 0),
{
    n % 2 != 0
}

/// `n!`, with 0 for negative `n`.
pub open spec fn fact(n: int) -> int
    decreases n,
{
    if n <= 1 { 1 } else { n * fact(n - 1) }
}

pub fn factorial(n: i64) -> (r: i64)
    requires
        fact(n as int) <= i64::MAX,
    ensures
        r == (if n < 0 { 0 } else { fact(n as int) }),
{
    if n < 0 {
        0
    } else if n <= 1 {
        1
    } else {
        let mut result: i64 = 1;
        let mut i: i64 = 1;
        while i < n
            invariant
                1 <= i <= n,
                fact(n as int) <= i64::MAX,
                result == fact(i as int),
            decreases n - i,
        {
            i = i + 1;
            proof {
                lemma_fact_mono(i as int, n as int);
            }
            assert(fact(i as int) == i * fact(i - 1));
            result = i * result;
        }
        result
    }
}

proof fn lemma_fact_mono(i: int, j: int)
    requires
        1 <= i <= j,
    ensures
        0 < fact(i) <= fact(j),
    decreases j - i,
{
    lemma_fact_positive(i);
    if i < j {
        lemma_fact_mono(i, j - 1);
        lemma_fact_positive(j - 1);
        assert(fact(j) == j * fact(j - 1));
        assert(fact(j - 1) <= j * fact(j - 1)) by (nonlinear_arith)
            requires
                fact(j - 1) > 0,
                j > 1,
        {
        }
    }
}

proof fn lemma_fact_positive(n: int)
    ensures
        fact(n) > 0,
    decreases n,
{
    if n > 1 {
        lemma_fact_positive(n - 1);
        assert(n * fact(n - 1) > 0) by (nonlinear_arith)
            requires
                n > 1,
                fact(n - 1) > 0,
        {
        }
    }
}

/// The Fibonacci numbers, `fib(0) = 0`, `fib(1) = 1`.
pub open spec fn fib(n: nat) -> nat
    decreases n,
{
    if n == 0 { 0 } else if n == 1 { 1 } else { fib((n - 2) as nat) + fib((n - 1) as nat) }
}

proof fn lemma_fib_mono(i: nat, j: nat)
    requires
        i <= j,
    ensures
        fib(i) <= fib(j),
    decreases j - i,
{
    if i < j {
        lemma_fib_mono(i, (j - 1) as nat);
        if j >= 2 {
            assert(fib(j) == fib((j - 2) as nat) + fib((j - 1) as nat));
        }
    }
}

/// The `n`-th Fibonacci number (0 for non-positive `n`).
pub fn fibonacci(n: i64) -> (r: i64)
    requires
        n > 0 ==> fib(n as nat) <= i64::MAX,
    ensures
        r == (if n <= 0 { 0 } else { fib(n as nat) as int }),
{
    if n <= 0 {
        0
    } else if n == 1 {
        1
    } else {
        let mut a: i64 = 0;
        let mut b: i64 = 1;
        let mut k: i64 = 1;
        while k < n
            invariant
                1 <= k <= n,
                fib(n as nat) <= i64::MAX,
                a == fib((k - 1) as nat),
                b == fib(k as nat),
            decreases n - k,
        {
            k = k + 1;
            proof {
                lemma_fib_mono(k as nat, n as nat);
            }
            let c = a + b;
            a = b;
            b = c;
        }
        b
    }
}

/// Whether `n` is a prime number.
pub open spec fn prime(n: int) -> bool {
    n > 1 && forall|d: int| 2 <= d < n ==> #[trigger] (n % d) != 0
}


proof fn lemma_divides_trans(n: int, d: int, k: int)
    requires
        n >= 0,
        d > 0,
        k > 0,
        n % d == 0,
        d % k == 0,
    ensures
        n % k == 0,
{
    vstd::arithmetic::div_mod::lemma_fundamental_div_mod(n, d);
    vstd::arithmetic::div_mod::lemma_fundamental_div_mod(d, k);
    let a = d / k;
    let b = n / d;
    assert(n == k * (a * b)) by (nonlinear_arith)
        requires
            n == d * b,
            d == k * a,
    {
    }
    vstd::arithmetic::div_mod::lemma_mod_multiples_basic(a * b, k);
    assert((a * b) * k == k * (a * b)) by (nonlinear_arith);
}

proof fn lemma_cofactor(n: int, d: int)
    requires
        2 <= d < n,
        n % d == 0,
    ensures
        2 <= n / d,
        n % (n / d) == 0,
        d * (n / d) == n,
{
    vstd::arithmetic::div_mod::lemma_fundamental_div_mod(n, d);
    let q = n / d;
    assert(q >= 2) by (nonlinear_arith)
        requires
            n == d * q,
            2 <= d < n,
    {
    }
    vstd::arithmetic::div_mod::lemma_mod_multiples_basic(d, q);
    assert(d * q == n);
}

/// Trial division by 2, 3 and the numbers 6k-1, 6k+1 up to the square root.
pub fn is_prime(n: i64) -> (r: bool)
    ensures
        r == prime(n as int),
{
    if n <= 1 {
        return false;
    } else if n <= 3 {
        assert(forall|d: int| 2 <= d < n ==> #[trigger] (n as int % d) != 0);
        return true;
    } else if n % 2 == 0 || n % 3 == 0 {
        return false;
    }
    let mut i: i64 = 5;
    assert(forall|d: int| 2 <= d < 5 && d < n ==> #[trigger] (n as int % d) != 0) by {
        assert forall|d: int| 2 <= d < 5 && d < n implies #[trigger] (n as int % d) != 0 by {
            if d == 4 && n as int % 4 == 0 {
                lemma_divides_trans(n as int, 4, 2);
            }
        }
    }
    while i <= n / i
        invariant
            n > 3,
            n as int % 2 != 0,
            n as int % 3 != 0,
            5 <= i,
            i % 6 == 5,
            i <= n,
            forall|d: int| 2 <= d < i && d < n ==> #[trigger] (n as int % d) != 0,
        decreases n - i,
    {
        if n % i == 0 || n % (i + 2) == 0 {
            proof {
                if n as int % i as int == 0 {
                    assert(i < n) by (nonlinear_arith)
                        requires
                            i <= n / i,
                            i >= 5,
                    {
                    }
                } else {
                    assert(i + 2 < n) by {
                        assert(i * i <= n) by (nonlinear_arith)
                            requires
                                i <= n / i,
                                i > 0,
                        {
                        }
                        assert(i + 2 < i * i) by (nonlinear_arith)
                            requires
                                i >= 5,
                        {
                        }
                    }
                }
            }
            return false;
        }
        proof {
            assert(i * i <= n) by (nonlinear_arith)
                requires
                    i <= n / i,
                    i > 0,
            {
            }
            assert forall|d: int| 2 <= d < i + 6 && d < n implies #[trigger] (n as int % d) != 0 by {
                if d >= i && n as int % d == 0 {
                    if d == i + 1 || d == i + 3 || d == i + 5 {
                        assert(d % 2 == 0);
                        lemma_divides_trans(n as int, d, 2);
                    } else if d == i + 4 {
                        assert(d % 3 == 0);
                        lemma_divides_trans(n as int, d, 3);
                    }
                }
            }
        }
        if i > n - 6 {
            assert forall|d: int| 2 <= d < n implies #[trigger] (n as int % d) != 0 by {
                assert(d < i + 6);
            }
            return true;
        }
        i = i + 6;
    }
    proof {
        assert forall|d: int| 2 <= d < n implies #[trigger] (n as int % d) != 0 by {
            if d >= i && n as int % d == 0 {
                lemma_cofactor(n as int, d);
                let q = n as int / d;
                assert(q < i) by (nonlinear_arith)
                    requires
                        d * q == n,
                        d >= i,
                        i > n / i,
                        i > 0,
                        q >= 2,
                {
                }
                assert(n as int % q != 0);
            }
        }
    }
    true
}


/// Whether `d` is a positive divisor of `n`.
pub open spec fn is_divisor(n: int, d: int) -> bool {
    1 <= d <= n && n % d == 0
}

/// `i` is at most `n / i` exactly when its square is at most `n`.
proof fn lemma_square_bound(n: int, i: int)
    requires
        n >= 0,
        i >= 1,
    ensures
        (i <= n / i) == (i * i <= n),
{
    vstd::arithmetic::div_mod::lemma_fundamental_div_mod(n, i);
    vstd::arithmetic::div_mod::lemma_mod_pos_bound(n, i);
    let q = n / i;
    let r = n % i;
    assert((i <= q) == (i * i <= n)) by (nonlinear_arith)
        requires
            n == i * q + r,
            0 <= r < i,
            i >= 1,
    {
        if i <= q {
            assert(i * i <= i * q);
        } else {
            assert(i * (q + 1) <= i * i);
        }
    }
}

/// The quotient of a divisor is a divisor, and its quotient is the first.
proof fn lemma_divisor_pair(n: int, d: int)
    requires
        n >= 1,
        d >= 1,
        n % d == 0,
    ensures
        is_divisor(n, d),
        is_divisor(n, n / d),
        d * (n / d) == n,
        n / (n / d) == d,
{
    vstd::arithmetic::div_mod::lemma_fundamental_div_mod(n, d);
    let q = n / d;
    assert(d * q == n);
    assert(q >= 1 && q <= n && d <= n) by (nonlinear_arith)
        requires
            d * q == n,
            n >= 1,
            d >= 1,
    {
    }
    vstd::arithmetic::div_mod::lemma_mod_multiples_basic(d, q);
    assert(d * q == q * d) by (nonlinear_arith);
    vstd::arithmetic::div_mod::lemma_div_multiples_vanish(d, q);
}

/// The positive divisors of `n` in increasing order (none when `n` is not
/// positive): each divisor up to the square root, and its partner above it.
pub fn divisors(n: i64) -> (r: Vec<i64>)
    ensures
        forall|k: int| 0 <= k < r@.len() ==> is_divisor(n as int, #[trigger] r@[k] as int),
        forall|j: int, k: int| 0 <= j < k < r@.len() ==> r@[j] < r@[k],
        forall|d: int| #[trigger] is_divisor(n as int, d) ==> r@.contains(d as i64),
{
    let mut small: Vec<i64> = Vec::new();
    let mut large: Vec<i64> = Vec::new();
    if n <= 0 {
        return small;
    }
    let mut i: i64 = 1;
    assert forall|d: int| is_divisor(n as int, d) implies (n as int) / d >= 1 by {
        lemma_divisor_pair(n as int, d);
    }
    while i <= n / i
        invariant
            n >= 1,
            1 <= i <= n + 1,
            forall|k: int| 0 <= k < small@.len() ==> is_divisor(n as int, #[trigger] small@[k] as int)
                && small@[k] < i && small@[k] * small@[k] <= n,
            forall|j: int, k: int| 0 <= j < k < small@.len() ==> small@[j] < small@[k],
            forall|d: int| is_divisor(n as int, d) && d < i ==> #[trigger] small@.contains(d as i64),
            forall|k: int| 0 <= k < large@.len() ==> is_divisor(n as int, #[trigger] large@[k] as int)
                && large@[k] * large@[k] > n && n / large@[k] < i,
            forall|j: int, k: int| 0 <= j < k < large@.len() ==> large@[j] > large@[k],
            forall|d: int| is_divisor(n as int, d) && d * d > n && (n as int) / d < i ==> #[trigger] large@.contains(d as i64),
        decreases n + 1 - i,
    {
        proof {
            lemma_square_bound(n as int, i as int);
            assert(i <= n && i < i64::MAX) by (nonlinear_arith)
                requires
                    i * i <= n,
                    i >= 1,
                    n <= i64::MAX,
            {
                if i >= 2 {
                    assert(i * i >= 2 * i);
                }
            }
        }
        if n % i == 0 {
            let q = n / i;
            proof {
                lemma_divisor_pair(n as int, i as int);
            }
            let ghost old_small = small@;
            small.push(i);
            proof {
                assert forall|d: int| is_divisor(n as int, d) && d < i + 1 implies #[trigger] small@.contains(d as i64) by {
                    if d < i {
                        assert(old_small.contains(d as i64));
                        let k = choose|k: int| 0 <= k < old_small.len() && old_small[k] == d as i64;
                        assert(small@[k] == d as i64);
                    } else {
                        assert(small@[old_small.len() as int] == d as i64);
                    }
                }
            }
            if i != q {
                let ghost old_large = large@;
                proof {
                    assert(q > i);
                    assert(q * q > n) by (nonlinear_arith)
                        requires
                            i * q == n,
                            q > i,
                            i >= 1,
                    {
                    }
                    assert forall|k: int| 0 <= k < old_large.len() implies old_large[k] > q by {
                        let l = old_large[k] as int;
                        if l <= q {
                            vstd::arithmetic::div_mod::lemma_div_is_ordered_by_denominator(n as int, l, q as int);
                        }
                    }
                }
                large.push(q);
                proof {
                    assert forall|d: int| is_divisor(n as int, d) && d * d > n && (n as int) / d < i + 1 implies #[trigger] large@.contains(d as i64) by {
                        if (n as int) / d < i {
                            assert(old_large.contains(d as i64));
                            let k = choose|k: int| 0 <= k < old_large.len() && old_large[k] == d as i64;
                            assert(large@[k] == d as i64);
                        } else {
                            lemma_divisor_pair(n as int, d);
                            assert(large@[old_large.len() as int] == d as i64);
                        }
                    }
                }
            } else {
                proof {
                    assert forall|d: int| is_divisor(n as int, d) && d * d > n && (n as int) / d < i + 1 implies #[trigger] large@.contains(d as i64) by {
                        if (n as int) / d == i {
                            lemma_divisor_pair(n as int, d);
                            assert(d * d == n);
                        }
                    }
                }
            }
        } else {
            proof {
                assert forall|d: int| is_divisor(n as int, d) && d * d > n && (n as int) / d < i + 1 implies #[trigger] large@.contains(d as i64) by {
                    if (n as int) / d == i {
                        lemma_divisor_pair(n as int, d);
                    }
                }
            }
        }
        i = i + 1;
    }
    proof {
        lemma_square_bound(n as int, i as int);
    }
    let ghost sm = small@;
    let mut r = small;
    let mut k: usize = large.len();
    while k > 0
        invariant
            n >= 1,
            k <= large@.len(),
            r@.len() == sm.len() + (large@.len() - k),
            forall|j: int| 0 <= j < sm.len() ==> #[trigger] r@[j] == sm[j],
            forall|t: int| sm.len() <= t < r@.len() ==> #[trigger] r@[t] == large@[large@.len() - 1 - (t - sm.len())],
            forall|j: int| 0 <= j < sm.len() ==> is_divisor(n as int, #[trigger] sm[j] as int) && sm[j] * sm[j] <= n,
            forall|a: int, b: int| 0 <= a < b < sm.len() ==> sm[a] < sm[b],
            forall|j: int| 0 <= j < large@.len() ==> is_divisor(n as int, #[trigger] large@[j] as int) && large@[j] * large@[j] > n,
            forall|a: int, b: int| 0 <= a < b < large@.len() ==> large@[a] > large@[b],
        decreases k,
    {
        k = k - 1;
        r.push(large[k]);
    }
    proof {
        assert forall|t: int| 0 <= t < r@.len() implies is_divisor(n as int, #[trigger] r@[t] as int) by {
            if t >= sm.len() {
                assert(r@[t] == large@[large@.len() - 1 - (t - sm.len())]);
            }
        }
        assert forall|a: int, b: int| 0 <= a < b < r@.len() implies r@[a] < r@[b] by {
            if b < sm.len() {
            } else if a >= sm.len() {
                assert(r@[a] == large@[large@.len() - 1 - (a - sm.len())]);
                assert(r@[b] == large@[large@.len() - 1 - (b - sm.len())]);
            } else {
                let s = sm[a] as int;
                let l = large@[large@.len() - 1 - (b - sm.len())] as int;
                assert(r@[b] == l);
                assert(s < l) by (nonlinear_arith)
                    requires
                        s * s <= n,
                        l * l > n,
                        s >= 1,
                        l >= 1,
                {
                    if s >= l {
                        assert(s * s >= l * l);
                    }
                }
            }
        }
        assert forall|d: int| #[trigger] is_divisor(n as int, d) implies r@.contains(d as i64) by {
            if d * d <= n {
                assert(d < i) by (nonlinear_arith)
                    requires
                        d * d <= n,
                        i * i > n,
                        d >= 1,
                        i >= 1,
                {
                    if d >= i {
                        assert(d * d >= i * i);
                    }
                }
                assert(small@.contains(d as i64));
                let t = choose|t: int| 0 <= t < sm.len() && sm[t] == d as i64;
                assert(r@[t] == d as i64);
            } else {
                lemma_divisor_pair(n as int, d);
                let c = n as int / d;
                assert(c < i) by (nonlinear_arith)
                    requires
                        d * c == n,
                        d * d > n,
                        i * i > n,
                        c >= 1,
                        d >= 1,
                        i >= 1,
                {
                    assert(c < d);
                    assert(c * c < c * d);
                    if c >= i {
                        assert(c * c >= i * i);
                    }
                }
                assert(large@.contains(d as i64));
                let t = choose|t: int| 0 <= t < large@.len() && large@[t] == d as i64;
                let u = sm.len() + (large@.len() - 1 - t);
                assert(r@[u] == large@[large@.len() - 1 - (u - sm.len())]);
                assert(r@[u] == d as i64);
            }
        }
    }
    r
}

} // verus!
