//! A linear congruential random number generator and helpers built on it.
use vstd::prelude::*;
use std::collections::hash_map::DefaultHasher;
use std::hash::Hasher;
use vstd::std_specs::hash::DefaultHasherAdditionalSpecFns;
use vstd::string::StringSliceAdditionalSpecFns;

verus! {

/// Errors of the random-number helpers.
#[derive(Debug, Clone)]
pub enum RandError {
    InvalidRange,
    InvalidDistribution,
    SeedingError(String),
}

/// Multiplier of the generator.
pub const LCG_MULTIPLIER: u64 = 6364136223846793005u64;

/// One step of the generator: `s * 6364136223846793005 + 1`, wrapping.
pub open spec fn lcg_step(s: u64) -> u64 {
    s.wrapping_mul(LCG_MULTIPLIER).wrapping_add(1u64)
}

/// The state after `n` steps from `s`.
pub open spec fn lcg_iter(s: u64, n: nat) -> u64
    decreases n,
{
    if n == 0 { s } else { lcg_step(lcg_iter(s, (n - 1) as nat)) }
}

/// Index in `[0, n)` taken from a 64-bit draw `x` by splitting the draw range
/// into `n` equal buckets.
pub open spec fn pick_index(x: u64, n: u64) -> u64 {
    if n <= 1 { 0 } else { (x as int / (u64::MAX as int / n as int + 1)) as u64 }
}

/// Byte `k` (least significant first) of `x`.
pub open spec fn le_byte(x: u64, k: int) -> u8 {
    ((x as int / pow256(k) as int) % 256) as u8
}

/// `256` to the power `k`.
pub open spec fn pow256(k: int) -> nat
    decreases k,
{
    if k <= 0 { 1 } else { 256 * pow256(k - 1) }
}

/// The eight bytes of `x`, least significant first.
pub open spec fn le_bytes(x: u64) -> Seq<u8> {
    Seq::new(8, |k: int| le_byte(x, k))
}

/// The `n` bytes that the generator writes from state `s`: eight bytes of
/// each successive draw, the last draw cut to what is left.
pub open spec fn rng_bytes(s: u64, n: nat) -> Seq<u8>
    decreases n,
{
    if n == 0 {
        Seq::empty()
    } else if n <= 8 {
        le_bytes(lcg_step(s)).take(n as int)
    } else {
        le_bytes(lcg_step(s)) + rng_bytes(lcg_step(s), (n - 8) as nat)
    }
}

/// Number of draws made to fill `n` bytes.
pub open spec fn draws_for(n: nat) -> nat {
    (n + 7) / 8
}

/// `s` with the elements at `i` and `j` exchanged.
pub open spec fn swap_spec<T>(s: Seq<T>, i: int, j: int) -> Seq<T> {
    s.update(i, s[j]).update(j, s[i])
}

/// Fisher-Yates shuffle of positions `i` down to `1` of `s`, drawing from
/// state `st`; returns the shuffled sequence and the final state.
#[verifier::opaque]
pub open spec fn shuffle_spec<T>(s: Seq<T>, st: u64, i: nat) -> (Seq<T>, u64)
    decreases i,
{
    if i == 0 {
        (s, st)
    } else {
        let next = lcg_step(st);
        let j = pick_index(next, (i + 1) as u64);
        shuffle_spec(swap_spec(s, i as int, j as int), next, (i - 1) as nat)
    }
}

/// The generator.
pub struct StdRng {
    state: u64,
}

/// `SystemTime::elapsed` on the Unix epoch: the time since the epoch by
/// the system clock, `None` where the clock reads earlier than the epoch.
/// Nothing is claimed of the value: it depends on the clock.
#[verifier::external_body]
fn epoch_elapsed() -> (r: Option<std::time::Duration>) {
    std::time::UNIX_EPOCH.elapsed().ok()
}

/// `Duration::as_nanos`: the whole nanoseconds of a duration. Nothing is
/// claimed of the value, which is used only as a seed.
#[verifier::external_body]
fn duration_nanos(d: &std::time::Duration) -> (r: u128) {
    d.as_nanos()
}

/// `<[T]>::swap`: exchanges two elements of a slice.
#[verifier::external_body]
fn slice_swap<T>(s: &mut [T], i: usize, j: usize)
    requires
        i < old(s)@.len(),
        j < old(s)@.len(),
    ensures
        final(s)@ == swap_spec(old(s)@, i as int, j as int),
{
    s.swap(i, j);
}

proof fn lemma_pick_bound(x: u64, n: u64)
    requires
        n >= 1,
    ensures
        pick_index(x, n) < n,
{
    if n > 1 {
        let m = u64::MAX as int;
        let q = m / (n as int);
        assert((q + 1) * (n as int) > m) by (nonlinear_arith)
            requires q == m / (n as int), n > 1;
        assert((x as int) / (q + 1) < n) by (nonlinear_arith)
            requires (q + 1) * (n as int) > m, x <= m, q >= 0;
    }
}

/// Index in `[0, n)` taken from the draw `x`.
fn pick(x: u64, n: u64) -> (r: u64)
    requires
        n >= 1,
    ensures
        r == pick_index(x, n),
        r < n,
{
    proof {
        lemma_pick_bound(x, n);
    }
    if n <= 1 {
        0
    } else {
        proof {
            vstd::arithmetic::div_mod::lemma_div_is_ordered_by_denominator(u64::MAX as int, 2, n as int);
        }
        let scale = u64::MAX / n + 1;
        x / scale
    }
}

impl StdRng {
    /// The current state.
    pub closed spec fn state(&self) -> u64 {
        self.state
    }

    /// A generator seeded from the clock: its state is the low 64 bits of
    /// the nanoseconds since the Unix epoch, or 0 where the clock reads
    /// earlier than the epoch.
    pub fn new() -> (r: StdRng) {
        let state: u64 = match epoch_elapsed() {
            Some(d) => {
                let n = duration_nanos(&d);
                n as u64
            },
            None => 0,
        };
        StdRng { state }
    }

    /// A generator whose state is one step from `seed`.
    pub fn from_seed(seed: u64) -> (r: StdRng)
        ensures
            r.state() == lcg_step(seed),
    {
        StdRng { state: seed.wrapping_mul(LCG_MULTIPLIER).wrapping_add(1) }
    }

    /// Sets the state to `seed`.
    pub fn reseed(&mut self, seed: u64)
        ensures
            final(self).state() == seed,
    {
        self.state = seed;
    }

    /// Advances the state one step and returns it.
    pub fn next_u64(&mut self) -> (r: u64)
        ensures
            r == lcg_step(old(self).state()),
            final(self).state() == r,
    {
        self.state = self.state.wrapping_mul(LCG_MULTIPLIER).wrapping_add(1);
        self.state
    }

    /// The low 32 bits of the next draw.
    pub fn next_u32(&mut self) -> (r: u32)
        ensures
            r == lcg_step(old(self).state()) as u32,
            final(self).state() == lcg_step(old(self).state()),
    {
        self.next_u64() as u32
    }

    /// Two draws joined: the first is the high half.
    pub fn next_u128(&mut self) -> (r: u128)
        ensures
            r == lcg_step(old(self).state()) as u128 * 0x1_0000_0000_0000_0000u128 + lcg_iter(
                old(self).state(),
                2,
            ) as u128,
            final(self).state() == lcg_iter(old(self).state(), 2),
    {
        let hi = self.next_u64() as u128;
        let lo = self.next_u64() as u128;
        assert((hi << 64u128) | lo == hi * 0x1_0000_0000_0000_0000u128 + lo) by (bit_vector)
            requires
                hi < 0x1_0000_0000_0000_0000u128,
                lo < 0x1_0000_0000_0000_0000u128,
        ;
        proof {
            reveal_with_fuel(lcg_iter, 3);
        }
        (hi << 64u128) | lo
    }

    /// Whether the next draw is odd.
    pub fn next_bool(&mut self) -> (r: bool)
        ensures
            r == (lcg_step(old(self).state()) % 2 == 1),
            final(self).state() == lcg_step(old(self).state()),
    {
        let v = self.next_u32();
        let x = self.state;
        assert((x as u32) & 1u32 == 1u32 <==> x % 2 == 1) by (bit_vector);
        v & 1 == 1
    }

    /// A value in `[0, n)` from the next draw.
    pub fn gen_index(&mut self, n: u64) -> (r: u64)
        requires
            n >= 1,
        ensures
            r == pick_index(lcg_step(old(self).state()), n),
            r < n,
            final(self).state() == lcg_step(old(self).state()),
    {
        let x = self.next_u64();
        pick(x, n)
    }

    /// A value in `range` from the next draw.
    pub fn gen_range(&mut self, range: std::ops::Range<i32>) -> (r: i32)
        requires
            range.start < range.end,
        ensures
            range.start <= r < range.end,
            r == range.start + pick_index(lcg_step(old(self).state()), (range.end - range.start) as u64),
            final(self).state() == lcg_step(old(self).state()),
    {
        let width = (range.end as i64 - range.start as i64) as u64;
        let k = self.gen_index(width);
        (range.start as i64 + k as i64) as i32
    }

    /// Fills `dest` with bytes of successive draws, eight per draw, least
    /// significant byte first.
    pub fn fill_bytes(&mut self, dest: &mut [u8])
        ensures
            final(dest)@.len() == old(dest)@.len(),
            final(dest)@ == rng_bytes(old(self).state(), old(dest)@.len()),
            final(self).state() == lcg_iter(old(self).state(), draws_for(old(dest)@.len())),
    {
        let n = dest.len();
        let ghost s0 = self.state;
        let mut i: usize = 0;
        while i < n
            invariant
                n == dest@.len(),
                n == old(dest)@.len(),
                i <= n,
                i < n ==> i % 8 == 0,
                dest@.take(i as int) == rng_bytes(s0, i as nat),
                self.state == lcg_iter(s0, draws_for(i as nat)),
            decreases n - i,
        {
            let ghost st = self.state;
            assert(draws_for(i as nat) == i / 8);
            let x = self.next_u64();
            let k = write_draw(dest, i, x);
            proof {
                lemma_rng_bytes_split(s0, i as nat, (i + k) as nat);
                assert(draws_for((i + k) as nat) == i / 8 + 1);
                assert(lcg_iter(s0, (i / 8 + 1) as nat) == lcg_step(lcg_iter(s0, (i / 8) as nat)));
            }
            i = i + k;
        }
        proof {
            assert(dest@.take(n as int) =~= dest@);
        }
    }
}

/// Writes the bytes of `x` into `dest` from position `i`, as many as fit
/// (at most eight); returns how many were written.
fn write_draw(dest: &mut [u8], i: usize, x: u64) -> (k: usize)
    requires
        i < old(dest)@.len(),
    ensures
        k == if old(dest)@.len() - i < 8 { old(dest)@.len() - i } else { 8 },
        final(dest)@.len() == old(dest)@.len(),
        final(dest)@.take(i + k) == old(dest)@.take(i as int) + le_bytes(x).take(k as int),
{
    let n = dest.len();
    let mut k: usize = 0;
    while k < 8 && i + k < n
        invariant
            n == dest@.len(),
            n == old(dest)@.len(),
            i < n,
            k <= 8,
            i + k <= n,
            dest@.take(i as int) == old(dest)@.take(i as int),
            forall|t: int| 0 <= t < k ==> #[trigger] dest@[i + t] == le_byte(x, t),
        decreases 8 - k,
    {
        let b = byte_of(x, k);
        dest[i + k] = b;
        proof {
            assert(dest@.take(i as int) =~= old(dest)@.take(i as int));
        }
        k = k + 1;
    }
    proof {
        assert(dest@.take(i + k) =~= old(dest)@.take(i as int) + le_bytes(x).take(k as int)) by {
            assert forall|t: int| 0 <= t < i + k implies dest@.take(i + k)[t] == (old(dest)@.take(i as int) + le_bytes(x).take(k as int))[t] by {
                if t >= i {
                    assert(dest@[i + (t - i)] == le_byte(x, t - i));
                } else {
                    assert(dest@.take(i as int)[t] == old(dest)@.take(i as int)[t]);
                }
            }
        }
    }
    k
}

/// Byte `k` (least significant first) of `x`.
fn byte_of(x: u64, k: usize) -> (r: u8)
    requires
        k < 8,
    ensures
        r == le_byte(x, k as int),
{
    let mut v = x;
    let mut t: usize = 0;
    assert(pow256(0) == 1);
    assert(x as int / 1 == x as int);
    while t < k
        invariant
            t <= k < 8,
            v == x as int / pow256(t as int) as int,
        decreases k - t,
    {
        proof {
            lemma_pow256_step(t as int);
            vstd::arithmetic::div_mod::lemma_div_denominator(x as int, pow256(t as int) as int, 256);
        }
        v = v / 256;
        t = t + 1;
    }
    (v % 256) as u8
}

proof fn lemma_pow256_step(k: int)
    requires
        k >= 0,
    ensures
        pow256(k + 1) == pow256(k) * 256,
        pow256(k) > 0,
    decreases k,
{
    if k > 0 {
        lemma_pow256_step(k - 1);
    }
}

/// The bytes for `i + k` positions are those for `i` followed by the first
/// `k` bytes of the next draw, when `i` is a whole number of draws.
proof fn lemma_rng_bytes_split(s: u64, i: nat, m: nat)
    requires
        i % 8 == 0,
        i <= m <= i + 8,
    ensures
        rng_bytes(s, m) == rng_bytes(s, i) + le_bytes(lcg_step(lcg_iter(s, i / 8))).take(m - i),
    decreases i,
{
    if i == 0 {
        if m == 0 {
            assert(le_bytes(lcg_step(s)).take(0) =~= Seq::<u8>::empty());
        } else {
            assert(rng_bytes(s, i) =~= Seq::<u8>::empty());
            assert(Seq::<u8>::empty() + le_bytes(lcg_step(s)).take(m as int) =~= le_bytes(lcg_step(s)).take(m as int));
        }
    } else {
        let s1 = lcg_step(s);
        lemma_rng_bytes_split(s1, (i - 8) as nat, (m - 8) as nat);
        lemma_lcg_iter_shift(s, ((i - 8) / 8) as nat);
        assert((i - 8) / 8 + 1 == i / 8);
        if i == 8 {
            assert(rng_bytes(s1, 0) =~= Seq::<u8>::empty());
            assert(le_bytes(s1).take(8) =~= le_bytes(s1));
        }
        assert(rng_bytes(s, m) =~= rng_bytes(s, i) + le_bytes(lcg_step(lcg_iter(s, i / 8))).take(m - i));
    }
}

/// Stepping first and then `n` times is stepping `n + 1` times.
proof fn lemma_lcg_iter_shift(s: u64, n: nat)
    ensures
        lcg_iter(lcg_step(s), n) == lcg_iter(s, n + 1),
    decreases n,
{
    if n > 0 {
        lemma_lcg_iter_shift(s, (n - 1) as nat);
        assert(lcg_iter(lcg_step(s), n) == lcg_step(lcg_iter(lcg_step(s), (n - 1) as nat)));
        assert(lcg_iter(s, n + 1) == lcg_step(lcg_iter(s, n)));
    } else {
        assert(lcg_iter(s, 1) == lcg_step(lcg_iter(s, 0)));
    }
}

impl Default for StdRng {
    fn default() -> (r: StdRng) {
        StdRng::new()
    }
}

/// A uniform distribution over a range; it holds the range's low end.
pub struct Uniform<X>(pub X);

impl<X> Uniform<X> {
    /// The distribution for `[low, high)`.
    pub fn new(low: X, high: X) -> (r: Uniform<X>)
        ensures
            r.0 == low,
    {
        Uniform(low)
    }
}

/// Marker for the shuffling distribution.
pub struct Shuffle;

impl Shuffle {
    pub fn new() -> (r: Shuffle) {
        Shuffle
    }
}

/// A value in `[low, high)` from a clock-seeded generator.
pub fn random(low: i32, high: i32) -> (r: i32)
    requires
        low < high,
    ensures
        low <= r < high,
{
    let mut rng = StdRng::new();
    rng.gen_range(low..high)
}

/// A random boolean from a clock-seeded generator.
pub fn random_bool() -> (r: bool) {
    let mut rng = StdRng::new();
    rng.next_bool()
}

/// `len` bytes from a clock-seeded generator.
pub fn random_bytes(len: usize) -> (r: Vec<u8>)
    ensures
        r@.len() == len,
{
    let mut rng = StdRng::new();
    let mut bytes: Vec<u8> = Vec::new();
    let mut i: usize = 0;
    while i < len
        invariant
            i <= len,
            bytes@.len() == i,
        decreases len - i,
    {
        bytes.push(0u8);
        i = i + 1;
    }
    rng.fill_bytes(bytes.as_mut_slice());
    bytes
}

/// Fisher-Yates shuffle of `slice` drawing from `rng`: for each position `i`
/// from the last down to 1, exchange it with a position in `[0, i]`.
pub fn shuffle_with<T>(slice: &mut [T], rng: &mut StdRng)
    ensures
        final(slice)@.len() == old(slice)@.len(),
        old(slice)@.len() == 0 ==> final(slice)@ == old(slice)@ && final(rng).state() == old(rng).state(),
        old(slice)@.len() > 0 ==> (final(slice)@, final(rng).state()) == shuffle_spec(
            old(slice)@,
            old(rng).state(),
            (old(slice)@.len() - 1) as nat,
        ),
{
    let len = slice.len();
    if len == 0 {
        return;
    }
    let ghost s0 = slice@;
    let ghost st0 = rng.state();
    let mut i: usize = len - 1;
    while i >= 1
        invariant
            len == slice@.len(),
            i < len,
            shuffle_spec(s0, st0, (len - 1) as nat) == shuffle_spec(slice@, rng.state(), i as nat),
        decreases i,
    {
        proof {
            lemma_shuffle_step(slice@, rng.state(), i as nat);
        }
        let j = rng.gen_index(i as u64 + 1);
        slice_swap(slice, i, j as usize);
        i = i - 1;
    }
    proof {
        lemma_shuffle_step(slice@, rng.state(), 0);
    }
}

/// One step of the shuffle: position `i` is exchanged with the position
/// picked by the next draw.
proof fn lemma_shuffle_step<T>(s: Seq<T>, st: u64, i: nat)
    ensures
        i == 0 ==> shuffle_spec(s, st, i) == (s, st),
        i > 0 ==> shuffle_spec(s, st, i) == shuffle_spec(
            swap_spec(s, i as int, pick_index(lcg_step(st), (i + 1) as u64) as int),
            lcg_step(st),
            (i - 1) as nat,
        ),
{
    reveal(shuffle_spec);
}

/// Shuffles `slice` with a clock-seeded generator: the result is the
/// Fisher-Yates shuffle drawn from the generator's starting state, whatever
/// the clock gave.
pub fn shuffle<T>(slice: &mut [T])
    ensures
        final(slice)@.len() == old(slice)@.len(),
        final(slice)@.to_multiset() == old(slice)@.to_multiset(),
        old(slice)@.len() <= 1 ==> final(slice)@ == old(slice)@,
        old(slice)@.len() > 0 ==> exists|st: u64| #[trigger] shuffle_spec(old(slice)@, st, (old(slice)@.len() - 1) as nat).0
            == final(slice)@,
{
    let ghost s0 = slice@;
    let _n = slice.len();
    let mut rng = StdRng::new();
    let ghost st = rng.state();
    shuffle_with(slice, &mut rng);
    proof {
        if s0.len() > 0 {
            lemma_shuffle_permutes(s0, st, (s0.len() - 1) as nat);
            assert(slice@ == shuffle_spec(s0, st, (s0.len() - 1) as nat).0);
            if s0.len() == 1 {
                lemma_shuffle_step(s0, st, 0);
            }
        }
    }
}

/// Exchanging two elements keeps the multiset of elements.
pub proof fn lemma_swap_permutes<T>(s: Seq<T>, i: int, j: int)
    requires
        0 <= i < s.len(),
        0 <= j < s.len(),
    ensures
        swap_spec(s, i, j).to_multiset() == s.to_multiset(),
        swap_spec(s, i, j).len() == s.len(),
{
    broadcast use vstd::seq_lib::to_multiset_update, vstd::seq_lib::to_multiset_contains,
        vstd::multiset::group_multiset_axioms;
    let t = s.update(i, s[j]);
    let u = t.update(j, s[i]);
    assert(t[j] == s[j]);
    assert(s.contains(s[i]));
    assert(t.contains(s[j]));
    let ms = s.to_multiset();
    assert(t.to_multiset() == ms.insert(s[j]).remove(s[i]));
    assert(u.to_multiset() == t.to_multiset().insert(s[i]).remove(s[j]));
    assert(ms.count(s[i]) > 0);
    assert(ms.insert(s[j]).remove(s[i]).insert(s[i]).remove(s[j]) =~= ms);
}

/// A shuffle only rearranges: the multiset of elements is unchanged.
pub proof fn lemma_shuffle_permutes<T>(s: Seq<T>, st: u64, i: nat)
    requires
        i < s.len(),
        s.len() <= u64::MAX,
    ensures
        shuffle_spec(s, st, i).0.to_multiset() == s.to_multiset(),
        shuffle_spec(s, st, i).0.len() == s.len(),
    decreases i,
{
    lemma_shuffle_step(s, st, i);
    if i > 0 {
        let next = lcg_step(st);
        let n = (i + 1) as u64;
        let j = pick_index(next, n);
        lemma_pick_bound(next, n);
        assert(j <= i);
        let t = swap_spec(s, i as int, j as int);
        lemma_swap_permutes(s, i as int, j as int);
        assert(shuffle_spec(s, st, i) == shuffle_spec(t, next, (i - 1) as nat));
        lemma_shuffle_permutes(t, next, (i - 1) as nat);
    }
}

/// A clock-seeded generator.
pub fn thread_rng() -> (r: StdRng) {
    StdRng::new()
}

/// A generator built from `seed` as `StdRng::from_seed` does.
pub fn seedable_rng(seed: u64) -> (r: StdRng)
    ensures
        r.state() == lcg_step(seed),
{
    StdRng::from_seed(seed)
}

/// A stored seed.
pub struct RngSeedable {
    seed: u64,
}

impl RngSeedable {
    pub closed spec fn seed_value(&self) -> u64 {
        self.seed
    }

    pub fn new(seed: u64) -> (r: RngSeedable)
        ensures
            r.seed_value() == seed,
    {
        RngSeedable { seed }
    }

    pub fn seed(&self) -> (r: u64)
        ensures
            r == self.seed_value(),
    {
        self.seed
    }

    pub fn set_seed(&mut self, seed: u64)
        ensures
            final(self).seed_value() == seed,
    {
        self.seed = seed;
    }
}

/// The standard hasher's digest of a string: its bytes followed by the
/// terminator byte `0xff`, as `str`'s `Hash` writes them.
pub fn hash_random(value: &str) -> (r: u64)
    ensures
        r == DefaultHasher::spec_finish(seq![value.spec_bytes(), seq![0xffu8]]),
{
    let mut hasher = DefaultHasher::new();
    hasher.write(value.as_bytes());
    let mut terminator: Vec<u8> = Vec::new();
    terminator.push(0xffu8);
    hasher.write(terminator.as_slice());
    proof {
        assert(hasher@ =~= seq![value.spec_bytes(), seq![0xffu8]]);
    }
    hasher.finish()
}

} // verus!
