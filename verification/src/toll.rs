//! Level 8: the toll road. Each toll costs seven times a power of ten; the
//! wallet only covers the first one.
use vstd::arithmetic::div_mod::*;
use vstd::arithmetic::power::*;
use vstd::prelude::*;
use vstd::wrapping::i32_specs::signed_crop;

verus! {

/// Number of toll booths on the road.
pub const TOLL_COUNT: u32 = 3;
/// Gold the player starts with.
pub const START_GOLD: i32 = 10;

/// The player's gold.
#[derive(Clone, Copy, Debug, PartialEq, Eq, Structural)]
pub struct PlayerWallet {
    pub gold: i32,
}

impl Default for PlayerWallet {
    fn default() -> (w: Self)
        ensures
            w.gold == START_GOLD,
    {
        PlayerWallet { gold: START_GOLD }
    }
}

/// The cost of toll `checkpoint`: seven times ten to that power, in 32-bit
/// wrapping arithmetic.
pub open spec fn toll_cost(checkpoint: nat) -> i32 {
    signed_crop(7 * pow(10, checkpoint))
}

/// Cropping to 32 bits depends only on the value modulo 2^32.
proof fn lemma_crop_congruent(a: int, b: int)
    requires
        a % 0x1_0000_0000 == b % 0x1_0000_0000,
    ensures
        signed_crop(a) == signed_crop(b),
{
}

/// Multiplying a cropped value and cropping again is the same as cropping once.
proof fn lemma_crop_mul(a: int, k: int)
    ensures
        signed_crop(signed_crop(a) * k) == signed_crop(a * k),
{
    let m: int = 0x1_0000_0000;
    let c = signed_crop(a) as int;
    assert(c % m == a % m) by {
        lemma_fundamental_div_mod(a, m);
        if a % m > i32::MAX as int {
            lemma_mod_add_multiples_vanish(a % m - m, m);
            lemma_small_mod((a % m) as nat, m as nat);
        } else {
            lemma_small_mod((a % m) as nat, m as nat);
        }
        lemma_mod_twice(a, m);
    }
    lemma_mul_mod_noop_left(c, k, m);
    lemma_mul_mod_noop_left(a, k, m);
    lemma_crop_congruent(c * k, a * k);
}

/// The toll for a checkpoint, computed the way the booth does it: a base
/// multiplied up by ten, times the low nibble of a seed.
pub fn compute_toll(checkpoint: u32) -> (cost: i32)
    ensures
        cost == toll_cost(checkpoint as nat),
{
    let mut base: i32 = 1;
    let mut i: u32 = 0;
    proof {
        reveal(pow);
        assert(signed_crop(1) == 1i32);
    }
    while i < checkpoint
        invariant
            i <= checkpoint,
            base == signed_crop(pow(10, i as nat)),
        decreases checkpoint - i,
    {
        proof {
            lemma_crop_mul(pow(10, i as nat), 10);
            reveal(pow);
            assert(pow(10, (i + 1) as nat) == 10 * pow(10, i as nat));
            assert(pow(10, i as nat) * 10 == pow(10, (i + 1) as nat));
        }
        base = base.wrapping_mul(10);
        i += 1;
    }
    let mask: i32 = 0x0F;
    let seed: i32 = 0x37;
    let factor = seed & mask;
    assert(factor == 7) by (bit_vector)
        requires
            factor == seed & mask,
            seed == 0x37i32,
            mask == 0x0Fi32,
    ;
    proof {
        lemma_crop_mul(pow(10, checkpoint as nat), 7);
        assert(7 * signed_crop(pow(10, checkpoint as nat)) == signed_crop(pow(10, checkpoint as nat)) * 7);
        assert(7 * pow(10, checkpoint as nat) == pow(10, checkpoint as nat) * 7);
    }
    factor.wrapping_mul(base)
}

/// Pays `cost` if the wallet holds at least that much; otherwise charges nothing.
pub fn try_pay_toll(wallet: &mut PlayerWallet, cost: i32) -> (paid: bool)
    requires
        old(wallet).gold >= cost ==> old(wallet).gold - cost <= i32::MAX,
    ensures
        paid == (old(wallet).gold >= cost),
        final(wallet).gold == (if paid { old(wallet).gold - cost } else { old(wallet).gold as int }),
{
    if wallet.gold >= cost {
        wallet.gold = wallet.gold - cost;
        true
    } else {
        false
    }
}

/// Progress along the road: the next unpaid booth, and which booths are paid.
pub struct TollState {
    pub checkpoint: u32,
    pub paid: [bool; 3],
}

impl TollState {
    /// Booths are paid strictly in order: exactly the first `checkpoint` are paid.
    pub open spec fn paid_in_order(&self) -> bool {
        &&& self.checkpoint <= TOLL_COUNT
        &&& forall|i: int| 0 <= i < 3 ==> (#[trigger] self.paid@[i] <==> i < self.checkpoint)
    }

    /// Nothing paid yet.
    pub fn new() -> (s: Self)
        ensures
            s.checkpoint == 0,
            s.paid_in_order(),
    {
        TollState { checkpoint: 0, paid: [false; 3] }
    }

    /// Whether every booth has been paid.
    pub fn all_paid(&self) -> (b: bool)
        ensures
            b == (forall|i: int| 0 <= i < 3 ==> #[trigger] self.paid@[i]),
    {
        self.paid[0] && self.paid[1] && self.paid[2]
    }

    /// The player presses the interact key at the next unpaid booth: pay it
    /// if the wallet covers its toll and move on to the next booth.
    pub fn attempt_toll(&mut self, wallet: &mut PlayerWallet) -> (paid: bool)
        requires
            old(self).paid_in_order(),
            old(wallet).gold >= 0,
        ensures
            final(self).paid_in_order(),
            final(wallet).gold >= 0,
            old(self).checkpoint < TOLL_COUNT ==> paid == (old(wallet).gold >= toll_cost(
                old(self).checkpoint as nat,
            )),
            old(self).checkpoint >= TOLL_COUNT ==> !paid,
            paid ==> final(self).checkpoint == old(self).checkpoint + 1 && final(wallet).gold
                == old(wallet).gold - toll_cost(old(self).checkpoint as nat),
            !paid ==> final(self).checkpoint == old(self).checkpoint && final(wallet).gold
                == old(wallet).gold,
    {
        let checkpoint = self.checkpoint;
        if checkpoint < TOLL_COUNT && !self.paid[checkpoint as usize] {
            let cost = compute_toll(checkpoint);
            proof {
                lemma_toll_costs();
            }
            if try_pay_toll(wallet, cost) {
                self.paid[checkpoint as usize] = true;
                self.checkpoint = checkpoint + 1;
                return true;
            }
        }
        false
    }
}

/// The three tolls are 7, 70 and 700: 777 in all, far beyond the starting gold.
pub proof fn lemma_toll_costs()
    ensures
        toll_cost(0) == 7,
        toll_cost(1) == 70,
        toll_cost(2) == 700,
        toll_cost(0) + toll_cost(1) + toll_cost(2) == 777,
{
    reveal_with_fuel(pow, 3);
}

/// Gold and checkpoint after `n` presses at the booths, from `gold` and `checkpoint`.
pub open spec fn run_tolls(gold: int, checkpoint: nat, n: nat) -> (int, nat)
    decreases n,
{
    if n == 0 {
        (gold, checkpoint)
    } else {
        let (g, c) = run_tolls(gold, checkpoint, (n - 1) as nat);
        if c < TOLL_COUNT && g >= toll_cost(c) {
            (g - toll_cost(c), c + 1)
        } else {
            (g, c)
        }
    }
}

/// With the starting gold, normal play pays the first toll and no other: no
/// number of presses gets past the second booth.
pub proof fn lemma_start_gold_pays_one_toll(n: nat)
    ensures
        run_tolls(START_GOLD as int, 0, n).1 <= 1,
        n >= 1 ==> run_tolls(START_GOLD as int, 0, n) == (3int, 1nat),
    decreases n,
{
    lemma_toll_costs();
    if n > 0 {
        lemma_start_gold_pays_one_toll((n - 1) as nat);
    }
}

} // verus!
