use rand::rngs::ThreadRng;
use rand::Rng;
use vstd::prelude::*;

verus! {

#[verifier::external_type_specification]
#[verifier::external_body]
pub struct ExThreadRng(ThreadRng);

/// Updates of the world per second of simulated time.
pub const UPDATES_PER_SECOND: u32 = 60;

/// A new shark's first roam is drawn from this many seconds ...
pub const FIRST_ROAM_MIN_SECONDS: u32 = 5;

/// ... up to this many.
pub const FIRST_ROAM_MAX_SECONDS: u32 = 20;

/// After a hunt a shark's roam is drawn from this many seconds ...
pub const LATER_ROAM_MIN_SECONDS: u32 = 10;

/// ... up to this many.
pub const LATER_ROAM_MAX_SECONDS: u32 = 30;

/// A bound on every roam, in updates, that a shark is given.
pub const MAX_ROAM_UPDATES: u32 = UPDATES_PER_SECOND * LATER_ROAM_MAX_SECONDS;

/// Random fractions are drawn in steps of `1 / DRAW_STEPS`: `rand` makes an
/// `f32` in `[0, 1)` as `k / 2²⁴` from a uniform 24-bit `k`, so a draw `k`
/// below `DRAW_STEPS` stands for that fraction.
pub const DRAW_STEPS: u32 = 16777216;

/// The spacing, in units of `2⁻²⁴`, of the `f32` values near `n · 2⁻²⁴`,
/// for `0 <= n < 2²⁹`: `f32` has 24 significant bits.
pub open spec fn f32_spacing(n: int) -> int {
    if n < 0x100_0000 {
        1
    } else if n < 0x200_0000 {
        2
    } else if n < 0x400_0000 {
        4
    } else if n < 0x800_0000 {
        8
    } else if n < 0x1000_0000 {
        16
    } else {
        32
    }
}

/// `n · 2⁻²⁴` rounded to the nearest `f32`, ties to the even significand,
/// in units of `2⁻²⁴`, for `0 <= n < 2²⁹`.
pub open spec fn round_to_f32(n: int) -> int {
    let q = f32_spacing(n);
    let r = n % q;
    let base = n - r;
    if 2 * r < q {
        base
    } else if 2 * r > q {
        base + q
    } else if (base / q) % 2 == 0 {
        base
    } else {
        base + q
    }
}

/// Whole seconds of a roam drawn as `(x * (max - min) + min) as u32`, in
/// `f32` arithmetic, where `x` is the fraction `draw / 2²⁴`.
pub open spec fn roam_seconds(draw: int, min: int, max: int) -> int {
    round_to_f32(round_to_f32(draw * (max - min)) + min * DRAW_STEPS) / DRAW_STEPS as int
}

/// `rand::rng()`: a handle to the generator of the calling thread. Its
/// state depends on the operating system's entropy, and the crate panics
/// where the system provides none; nothing is stated of it.
#[verifier::external_body]
fn thread_rng() -> ThreadRng {
    rand::rng()
}

/// `Rng::random_range` over the half-open range `low..high` of `u32`: the
/// value drawn lies in the range, which the crate asserts is not empty.
/// Which value comes is left to chance and is not stated.
#[verifier::external_body]
fn random_u32_in(rng: &mut ThreadRng, low: u32, high: u32) -> (value: u32)
    requires
        low < high,
    ensures
        low <= value < high,
{
    rng.random_range(low..high)
}

fn f32_spacing_units(n: u64) -> (q: u64)
    requires
        n < 0x2000_0000,
    ensures
        q == f32_spacing(n as int),
{
    if n < 0x100_0000 {
        1
    } else if n < 0x200_0000 {
        2
    } else if n < 0x400_0000 {
        4
    } else if n < 0x800_0000 {
        8
    } else if n < 0x1000_0000 {
        16
    } else {
        32
    }
}

fn round_to_f32_units(n: u64) -> (m: u64)
    requires
        n < 0x2000_0000,
    ensures
        m == round_to_f32(n as int),
{
    let q = f32_spacing_units(n);
    let r = n % q;
    let base = n - r;
    if 2 * r < q {
        base
    } else if 2 * r > q {
        base + q
    } else if (base / q) % 2 == 0 {
        base
    } else {
        base + q
    }
}

/// The spacing of `f32` values below `2⁵` divides every whole number.
proof fn lemma_spacing_divides_whole(n: int, whole: int)
    requires
        0 <= n < 0x2000_0000,
        whole >= 0,
    ensures
        (whole * DRAW_STEPS) % f32_spacing(n) == 0,
{
    let q = f32_spacing(n);
    assert(whole * DRAW_STEPS == (whole * (DRAW_STEPS as int / q)) * q) by (nonlinear_arith)
        requires
            q == 1 || q == 2 || q == 4 || q == 8 || q == 16 || q == 32,
    ;
    vstd::arithmetic::div_mod::lemma_mod_multiples_basic(whole * (DRAW_STEPS as int / q), q);
}

/// Rounding to `f32` never passes an `f32` value: `n` rounds to a value
/// between any two multiples of its spacing that bracket it.
proof fn lemma_round_between(n: int, lo: int, hi: int)
    requires
        0 <= lo <= n <= hi,
        n < 0x2000_0000,
        lo % f32_spacing(n) == 0,
        hi % f32_spacing(n) == 0,
    ensures
        lo <= round_to_f32(n) <= hi,
{
    let q = f32_spacing(n);
    let r = n % q;
    let base = n - r;
    vstd::arithmetic::div_mod::lemma_fundamental_div_mod(n, q);
    vstd::arithmetic::div_mod::lemma_fundamental_div_mod(lo, q);
    vstd::arithmetic::div_mod::lemma_fundamental_div_mod(hi, q);
    let b = n / q;
    let a = lo / q;
    let c = hi / q;
    assert(0 <= r < q);
    assert(base == q * b);
    assert(a * q < (b + 1) * q) by (nonlinear_arith)
        requires
            lo == q * a,
            n == q * b + r,
            r < q,
            lo <= n,
    ;
    vstd::arithmetic::mul::lemma_mul_strict_inequality_converse(a, b + 1, q);
    vstd::arithmetic::mul::lemma_mul_inequality(a, b, q);
    assert(lo <= base) by (nonlinear_arith)
        requires
            lo == q * a,
            base == q * b,
            a * q <= b * q,
    ;
    if r > 0 {
        assert(base + q <= hi) by (nonlinear_arith)
            requires
                q > 0,
                hi == q * c,
                n == q * b + r,
                0 < r < q,
                n <= hi,
                base == q * b,
        ;
    }
}

/// A roam drawn from `min..=max` seconds lasts between `min` and `max`
/// seconds.
pub proof fn lemma_roam_seconds_range(draw: int, min: int, max: int)
    requires
        0 <= draw < DRAW_STEPS,
        0 <= min <= max <= 30,
    ensures
        min <= roam_seconds(draw, min, max) <= max,
{
    let unit = DRAW_STEPS as int;
    let span = max - min;
    let n1 = draw * span;
    assert(0 <= n1 <= span * unit) by (nonlinear_arith)
        requires
            0 <= draw < unit,
            span >= 0,
            n1 == draw * span,
    ;
    assert(span * unit < 0x2000_0000);
    lemma_spacing_divides_whole(n1, 0);
    lemma_spacing_divides_whole(n1, span);
    lemma_round_between(n1, 0, span * unit);
    let a = round_to_f32(n1);
    let n2 = a + min * unit;
    assert(min * unit <= n2 <= max * unit);
    lemma_spacing_divides_whole(n2, min);
    lemma_spacing_divides_whole(n2, max);
    lemma_round_between(n2, min * unit, max * unit);
    let b = round_to_f32(n2);
    vstd::arithmetic::div_mod::lemma_div_is_ordered(min * unit, b, unit);
    vstd::arithmetic::div_mod::lemma_div_is_ordered(b, max * unit, unit);
    vstd::arithmetic::div_mod::lemma_div_by_multiple(min, unit);
    vstd::arithmetic::div_mod::lemma_div_by_multiple(max, unit);
}

/// Every whole number of seconds from `FIRST_ROAM_MIN_SECONDS` to
/// `FIRST_ROAM_MAX_SECONDS` is the first roam of some draw: the draws do
/// not collapse onto part of the range.
pub proof fn lemma_first_roam_reaches_every_second(seconds: int)
    requires
        FIRST_ROAM_MIN_SECONDS <= seconds <= FIRST_ROAM_MAX_SECONDS,
    ensures
        exists|draw: int|
            0 <= draw < DRAW_STEPS && #[trigger] roam_seconds(
                draw,
                FIRST_ROAM_MIN_SECONDS as int,
                FIRST_ROAM_MAX_SECONDS as int,
            ) == seconds,
{
    if seconds == 5 {
        assert(roam_seconds(0, 5, 20) == 5);
        assert(0 <= 0int < DRAW_STEPS);
    } else if seconds == 6 {
        assert(roam_seconds(1118481, 5, 20) == 6);
        assert(0 <= 1118481int < DRAW_STEPS);
    } else if seconds == 7 {
        assert(roam_seconds(2236962, 5, 20) == 7);
        assert(0 <= 2236962int < DRAW_STEPS);
    } else if seconds == 8 {
        assert(roam_seconds(3355443, 5, 20) == 8);
        assert(0 <= 3355443int < DRAW_STEPS);
    } else if seconds == 9 {
        assert(roam_seconds(4473924, 5, 20) == 9);
        assert(0 <= 4473924int < DRAW_STEPS);
    } else if seconds == 10 {
        assert(roam_seconds(5592405, 5, 20) == 10);
        assert(0 <= 5592405int < DRAW_STEPS);
    } else if seconds == 11 {
        assert(roam_seconds(6710886, 5, 20) == 11);
        assert(0 <= 6710886int < DRAW_STEPS);
    } else if seconds == 12 {
        assert(roam_seconds(7829367, 5, 20) == 12);
        assert(0 <= 7829367int < DRAW_STEPS);
    } else if seconds == 13 {
        assert(roam_seconds(8947848, 5, 20) == 13);
        assert(0 <= 8947848int < DRAW_STEPS);
    } else if seconds == 14 {
        assert(roam_seconds(10066330, 5, 20) == 14);
        assert(0 <= 10066330int < DRAW_STEPS);
    } else if seconds == 15 {
        assert(roam_seconds(11184811, 5, 20) == 15);
        assert(0 <= 11184811int < DRAW_STEPS);
    } else if seconds == 16 {
        assert(roam_seconds(12303292, 5, 20) == 16);
        assert(0 <= 12303292int < DRAW_STEPS);
    } else if seconds == 17 {
        assert(roam_seconds(13421772, 5, 20) == 17);
        assert(0 <= 13421772int < DRAW_STEPS);
    } else if seconds == 18 {
        assert(roam_seconds(14540253, 5, 20) == 18);
        assert(0 <= 14540253int < DRAW_STEPS);
    } else if seconds == 19 {
        assert(roam_seconds(15658734, 5, 20) == 19);
        assert(0 <= 15658734int < DRAW_STEPS);
    } else if seconds == 20 {
        assert(roam_seconds(16777215, 5, 20) == 20);
        assert(0 <= 16777215int < DRAW_STEPS);
    }
}

/// Every whole number of seconds from `LATER_ROAM_MIN_SECONDS` to one
/// below `LATER_ROAM_MAX_SECONDS` is the roam after a hunt for some draw.
pub proof fn lemma_later_roam_reaches_every_second(seconds: int)
    requires
        LATER_ROAM_MIN_SECONDS <= seconds < LATER_ROAM_MAX_SECONDS,
    ensures
        exists|draw: int|
            0 <= draw < DRAW_STEPS && #[trigger] roam_seconds(
                draw,
                LATER_ROAM_MIN_SECONDS as int,
                LATER_ROAM_MAX_SECONDS as int,
            ) == seconds,
{
    if seconds == 10 {
        assert(roam_seconds(0, 10, 30) == 10);
        assert(0 <= 0int < DRAW_STEPS);
    } else if seconds == 11 {
        assert(roam_seconds(838861, 10, 30) == 11);
        assert(0 <= 838861int < DRAW_STEPS);
    } else if seconds == 12 {
        assert(roam_seconds(1677722, 10, 30) == 12);
        assert(0 <= 1677722int < DRAW_STEPS);
    } else if seconds == 13 {
        assert(roam_seconds(2516582, 10, 30) == 13);
        assert(0 <= 2516582int < DRAW_STEPS);
    } else if seconds == 14 {
        assert(roam_seconds(3355443, 10, 30) == 14);
        assert(0 <= 3355443int < DRAW_STEPS);
    } else if seconds == 15 {
        assert(roam_seconds(4194304, 10, 30) == 15);
        assert(0 <= 4194304int < DRAW_STEPS);
    } else if seconds == 16 {
        assert(roam_seconds(5033165, 10, 30) == 16);
        assert(0 <= 5033165int < DRAW_STEPS);
    } else if seconds == 17 {
        assert(roam_seconds(5872025, 10, 30) == 17);
        assert(0 <= 5872025int < DRAW_STEPS);
    } else if seconds == 18 {
        assert(roam_seconds(6710886, 10, 30) == 18);
        assert(0 <= 6710886int < DRAW_STEPS);
    } else if seconds == 19 {
        assert(roam_seconds(7549747, 10, 30) == 19);
        assert(0 <= 7549747int < DRAW_STEPS);
    } else if seconds == 20 {
        assert(roam_seconds(8388607, 10, 30) == 20);
        assert(0 <= 8388607int < DRAW_STEPS);
    } else if seconds == 21 {
        assert(roam_seconds(9227468, 10, 30) == 21);
        assert(0 <= 9227468int < DRAW_STEPS);
    } else if seconds == 22 {
        assert(roam_seconds(10066329, 10, 30) == 22);
        assert(0 <= 10066329int < DRAW_STEPS);
    } else if seconds == 23 {
        assert(roam_seconds(10905190, 10, 30) == 23);
        assert(0 <= 10905190int < DRAW_STEPS);
    } else if seconds == 24 {
        assert(roam_seconds(11744051, 10, 30) == 24);
        assert(0 <= 11744051int < DRAW_STEPS);
    } else if seconds == 25 {
        assert(roam_seconds(12582911, 10, 30) == 25);
        assert(0 <= 12582911int < DRAW_STEPS);
    } else if seconds == 26 {
        assert(roam_seconds(13421772, 10, 30) == 26);
        assert(0 <= 13421772int < DRAW_STEPS);
    } else if seconds == 27 {
        assert(roam_seconds(14260633, 10, 30) == 27);
        assert(0 <= 14260633int < DRAW_STEPS);
    } else if seconds == 28 {
        assert(roam_seconds(15099494, 10, 30) == 28);
        assert(0 <= 15099494int < DRAW_STEPS);
    } else if seconds == 29 {
        assert(roam_seconds(15938355, 10, 30) == 29);
        assert(0 <= 15938355int < DRAW_STEPS);
    }
}

/// Multiples of 32 are multiples of every `f32` spacing below `2²⁹`.
proof fn lemma_spacing_divides_32(n: int, m: int)
    requires
        0 <= n < 0x2000_0000,
        m % 32 == 0,
    ensures
        m % f32_spacing(n) == 0,
{
    let q = f32_spacing(n);
    vstd::arithmetic::div_mod::lemma_fundamental_div_mod(m, 32);
    let t = m / 32;
    assert(m == (t * (32int / q)) * q) by (nonlinear_arith)
        requires
            m == 32 * t,
            q == 1 || q == 2 || q == 4 || q == 8 || q == 16 || q == 32,
    ;
    vstd::arithmetic::div_mod::lemma_mod_multiples_basic(t * (32int / q), q);
}

/// A value less than half a spacing past an `f32` value `m` rounds to at
/// most `m`.
proof fn lemma_round_not_past(n: int, m: int)
    requires
        0 <= n < 0x2000_0000,
        m >= 0,
        m % f32_spacing(n) == 0,
        2 * (n - m) < f32_spacing(n),
    ensures
        round_to_f32(n) <= m,
{
    if n <= m {
        lemma_round_between(n, 0, m);
    } else {
        let q = f32_spacing(n);
        vstd::arithmetic::div_mod::lemma_fundamental_div_mod(m, q);
        vstd::arithmetic::div_mod::lemma_fundamental_div_mod_converse(n, q, m / q, n - m);
    }
}

/// A roam after a hunt never reaches `LATER_ROAM_MAX_SECONDS`: the largest
/// draw gives one second less.
pub proof fn lemma_later_roam_below_max(draw: int)
    requires
        0 <= draw < DRAW_STEPS,
    ensures
        roam_seconds(draw, LATER_ROAM_MIN_SECONDS as int, LATER_ROAM_MAX_SECONDS as int)
            < LATER_ROAM_MAX_SECONDS,
{
    let unit = DRAW_STEPS as int;
    let n1 = draw * 20;
    let m1 = 20 * unit - 32;
    assert(0 <= n1 <= 20 * unit - 20);
    lemma_spacing_divides_32(n1, m1);
    if n1 >= 0x1000_0000 {
        assert(f32_spacing(n1) == 32);
    }
    lemma_round_not_past(n1, m1);
    lemma_spacing_divides_whole(n1, 0);
    lemma_round_between(n1, 0, 20 * unit);
    let a = round_to_f32(n1);
    let n2 = a + 10 * unit;
    let m2 = 30 * unit - 32;
    assert(10 * unit <= n2 <= m2);
    lemma_spacing_divides_whole(n2, 10);
    lemma_spacing_divides_32(n2, m2);
    lemma_round_between(n2, 10 * unit, m2);
    let b = round_to_f32(n2);
    vstd::arithmetic::div_mod::lemma_div_is_ordered(b, m2, unit);
    assert(m2 / unit == 29);
}

/// The whole seconds of a roam drawn from `min..=max` seconds by the draw
/// `draw`: the fraction `draw / 2²⁴` is scaled and shifted in `f32`
/// arithmetic, and the result truncated.
pub fn roam_seconds_from_draw(draw: u32, min: u32, max: u32) -> (seconds: u32)
    requires
        draw < DRAW_STEPS,
        min <= max <= 30,
    ensures
        seconds == roam_seconds(draw as int, min as int, max as int),
        min <= seconds <= max,
{
    proof {
        lemma_roam_seconds_range(draw as int, min as int, max as int);
        assert(draw * (max - min) <= (max - min) * DRAW_STEPS) by (nonlinear_arith)
            requires
                draw < DRAW_STEPS,
                min <= max,
        ;
        lemma_spacing_divides_whole(draw * (max - min), 0);
        lemma_spacing_divides_whole(draw * (max - min), (max - min) as int);
        lemma_round_between(draw * (max - min), 0, (max - min) * DRAW_STEPS);
    }
    let scaled = round_to_f32_units(draw as u64 * (max - min) as u64);
    let shifted = round_to_f32_units(scaled + min as u64 * DRAW_STEPS as u64);
    (shifted / DRAW_STEPS as u64) as u32
}

/// What a shark is doing.
#[derive(Clone, Copy)]
pub enum Behaviour<P> {
    /// Roaming for the given number of updates.
    Roaming(u32),
    /// Hunting, having set out from the given point.
    Hunting(P),
}

/// Everything about a shark but its random number generator: the model
/// that the contracts speak of.
pub struct SharkState<S, P> {
    pub position: P,
    pub velocity: P,
    pub base_speed: S,
    pub speed_modifier: S,
    pub behaviour: Behaviour<P>,
    pub roam_timer: u32,
    pub preferred_depth: S,
}

impl<S, P> SharkState<S, P> {
    /// The roam time is one that the shark could have been given, and the
    /// roam timer never runs more than one update past it.
    pub open spec fn valid(self) -> bool {
        &&& self.roam_timer <= MAX_ROAM_UPDATES + 1
        &&& match self.behaviour {
            Behaviour::Roaming(time) => time <= MAX_ROAM_UPDATES && self.roam_timer <= time + 1,
            Behaviour::Hunting(_) => true,
        }
    }
}

/// One evaluation of a shark's behaviour: a roaming shark whose timer has
/// run past its roam time starts hunting from where it stands; one whose
/// timer has not counts one more update; a hunting shark keeps hunting.
pub open spec fn evaluate_step<S, P>(m: SharkState<S, P>) -> SharkState<S, P> {
    match m.behaviour {
        Behaviour::Roaming(time) => {
            if m.roam_timer > time {
                SharkState { behaviour: Behaviour::Hunting(m.position), ..m }
            } else {
                SharkState { roam_timer: (m.roam_timer + 1) as u32, ..m }
            }
        },
        Behaviour::Hunting(_) => m,
    }
}

/// The state after `k` evaluations.
pub open spec fn evaluate_n<S, P>(m: SharkState<S, P>, k: nat) -> SharkState<S, P>
    decreases k,
{
    if k == 0 {
        m
    } else {
        evaluate_n(evaluate_step(m), (k - 1) as nat)
    }
}

/// A roam time of `seconds` whole seconds, in updates.
pub open spec fn roam_updates(seconds: int) -> int {
    UPDATES_PER_SECOND * seconds
}

/// A predator of the simulation: where it is, how it moves, and whether it
/// is roaming or hunting. `P` stands for positions and velocities, `S` for
/// scalar quantities; the library only stores and hands them back.
pub struct Shark<S, P> {
    position: P,
    velocity: P,
    base_speed: S,
    speed_modifier: S,
    behaviour: Behaviour<P>,
    roam_timer: u32,
    preferred_depth: S,
    rng: ThreadRng,
}

impl<S, P> View for Shark<S, P> {
    type V = SharkState<S, P>;

    closed spec fn view(&self) -> SharkState<S, P> {
        SharkState {
            position: self.position,
            velocity: self.velocity,
            base_speed: self.base_speed,
            speed_modifier: self.speed_modifier,
            behaviour: self.behaviour,
            roam_timer: self.roam_timer,
            preferred_depth: self.preferred_depth,
        }
    }
}

impl<S: Copy, P: Copy> Shark<S, P> {
    /// The shark's state is valid.
    pub open spec fn wf(&self) -> bool {
        self@.valid()
    }

    /// A shark at `position` moving with `velocity`, which starts out
    /// roaming for a whole number of seconds drawn from
    /// `FIRST_ROAM_MIN_SECONDS..=FIRST_ROAM_MAX_SECONDS`.
    pub fn new(
        position: P,
        velocity: P,
        base_speed: S,
        preferred_depth: S,
        speed_modifier: S,
    ) -> (shark: Self)
        ensures
            shark.wf(),
            shark@.position == position,
            shark@.velocity == velocity,
            shark@.base_speed == base_speed,
            shark@.preferred_depth == preferred_depth,
            shark@.speed_modifier == speed_modifier,
            shark@.roam_timer == 0,
            exists|draw: int|
                0 <= draw < DRAW_STEPS && shark@.behaviour == Behaviour::<P>::Roaming(
                    roam_updates(
                        #[trigger] roam_seconds(draw, FIRST_ROAM_MIN_SECONDS as int, FIRST_ROAM_MAX_SECONDS as int),
                    ) as u32,
                ),
            exists|seconds: int|
                FIRST_ROAM_MIN_SECONDS <= seconds <= FIRST_ROAM_MAX_SECONDS
                    && shark@.behaviour == Behaviour::<P>::Roaming(
                    #[trigger] roam_updates(seconds) as u32,
                ),
    {
        let mut rng = thread_rng();
        let draw = random_u32_in(&mut rng, 0, DRAW_STEPS);
        let seconds = roam_seconds_from_draw(draw, FIRST_ROAM_MIN_SECONDS, FIRST_ROAM_MAX_SECONDS);
        let time = UPDATES_PER_SECOND * seconds;
        let shark = Shark {
            position,
            velocity,
            base_speed,
            speed_modifier,
            behaviour: Behaviour::Roaming(time),
            roam_timer: 0,
            preferred_depth,
            rng,
        };
        assert(shark@.behaviour == Behaviour::<P>::Roaming(roam_updates(seconds as int) as u32));
        assert(shark@.behaviour == Behaviour::<P>::Roaming(
            roam_updates(
                roam_seconds(draw as int, FIRST_ROAM_MIN_SECONDS as int, FIRST_ROAM_MAX_SECONDS as int),
            ) as u32,
        ));
        shark
    }

    /// The depth the shark patrols at.
    pub fn preferred_depth(&self) -> (depth: S)
        ensures
            depth == self@.preferred_depth,
    {
        self.preferred_depth
    }

    /// Advances the shark's behaviour by one update and returns it: a
    /// roaming shark whose time is up starts hunting from where it is.
    pub fn evaluate_behaviour(&mut self) -> (behaviour: Behaviour<P>)
        requires
            old(self).wf(),
        ensures
            final(self).wf(),
            final(self)@ == evaluate_step(old(self)@),
            behaviour == final(self)@.behaviour,
    {
        match self.behaviour {
            Behaviour::Roaming(time) => {
                if self.roam_timer > time {
                    self.behaviour = Behaviour::Hunting(self.position);
                } else {
                    self.roam_timer = self.roam_timer + 1;
                }
            },
            Behaviour::Hunting(_) => {},
        }
        self.behaviour
    }

    /// Ends a hunt: the shark roams again, for a whole number of seconds
    /// drawn from `LATER_ROAM_MIN_SECONDS..=LATER_ROAM_MAX_SECONDS`, with
    /// its roam timer reset.
    pub fn end_hunt(&mut self)
        ensures
            final(self).wf(),
            final(self)@.roam_timer == 0,
            exists|draw: int|
                0 <= draw < DRAW_STEPS && final(self)@.behaviour == Behaviour::<P>::Roaming(
                    roam_updates(
                        #[trigger] roam_seconds(draw, LATER_ROAM_MIN_SECONDS as int, LATER_ROAM_MAX_SECONDS as int),
                    ) as u32,
                ),
            exists|seconds: int|
                LATER_ROAM_MIN_SECONDS <= seconds <= LATER_ROAM_MAX_SECONDS
                    && final(self)@.behaviour == Behaviour::<P>::Roaming(
                    #[trigger] roam_updates(seconds) as u32,
                ),
            final(self)@.position == old(self)@.position,
            final(self)@.velocity == old(self)@.velocity,
            final(self)@.base_speed == old(self)@.base_speed,
            final(self)@.speed_modifier == old(self)@.speed_modifier,
            final(self)@.preferred_depth == old(self)@.preferred_depth,
    {
        let draw = random_u32_in(&mut self.rng, 0, DRAW_STEPS);
        let seconds = roam_seconds_from_draw(draw, LATER_ROAM_MIN_SECONDS, LATER_ROAM_MAX_SECONDS);
        let time = UPDATES_PER_SECOND * seconds;
        self.behaviour = Behaviour::Roaming(time);
        self.roam_timer = 0;
        assert(self@.behaviour == Behaviour::<P>::Roaming(roam_updates(seconds as int) as u32));
        assert(self@.behaviour == Behaviour::<P>::Roaming(
            roam_updates(
                roam_seconds(draw as int, LATER_ROAM_MIN_SECONDS as int, LATER_ROAM_MAX_SECONDS as int),
            ) as u32,
        ));
    }

    /// Where the shark is.
    pub fn position(&self) -> (position: &P)
        ensures
            *position == self@.position,
    {
        &self.position
    }

    /// Where the shark is, to be moved.
    pub fn mutable_position(&mut self) -> (position: &mut P)
        ensures
            *position == old(self)@.position,
            final(self)@ == (SharkState { position: *final(position), ..old(self)@ }),
    {
        &mut self.position
    }

    /// How the shark is moving.
    pub fn velocity(&self) -> (velocity: &P)
        ensures
            *velocity == self@.velocity,
    {
        &self.velocity
    }

    /// How the shark is moving, to be changed.
    pub fn mutable_velocity(&mut self) -> (velocity: &mut P)
        ensures
            *velocity == old(self)@.velocity,
            final(self)@ == (SharkState { velocity: *final(velocity), ..old(self)@ }),
    {
        &mut self.velocity
    }

    /// The factor the shark's speed is currently scaled by.
    pub fn speed_modifier(&self) -> (modifier: S)
        ensures
            modifier == self@.speed_modifier,
    {
        self.speed_modifier
    }

    /// Sets the factor the shark's speed is scaled by.
    pub fn set_speed_modifier(&mut self, modifier: S)
        ensures
            final(self)@ == (SharkState { speed_modifier: modifier, ..old(self)@ }),
    {
        self.speed_modifier = modifier;
    }
}

/// One evaluation keeps a shark's state valid.
pub proof fn lemma_evaluate_step_valid<S, P>(m: SharkState<S, P>)
    requires
        m.valid(),
    ensures
        evaluate_step(m).valid(),
{
}

/// A hunting shark keeps hunting, unchanged, however often its behaviour
/// is evaluated.
pub proof fn lemma_hunting_is_stable<S, P>(m: SharkState<S, P>, k: nat)
    requires
        m.behaviour is Hunting,
    ensures
        evaluate_n(m, k) == m,
    decreases k,
{
    if k > 0 {
        lemma_hunting_is_stable(evaluate_step(m), (k - 1) as nat);
    }
}

/// A shark roaming for `time` updates, whose timer stands at `timer`, is
/// still roaming, with its timer `k` further on, after each of the first
/// `time + 1 - timer` evaluations.
pub proof fn lemma_roaming_counts_up<S, P>(m: SharkState<S, P>, time: u32, k: nat)
    requires
        m.valid(),
        m.behaviour == Behaviour::<P>::Roaming(time),
        m.roam_timer + k <= time + 1,
    ensures
        evaluate_n(m, k) == (SharkState { roam_timer: (m.roam_timer + k) as u32, ..m }),
    decreases k,
{
    if k > 0 {
        let next = evaluate_step(m);
        assert(next == (SharkState { roam_timer: (m.roam_timer + 1) as u32, ..m }));
        lemma_roaming_counts_up(next, time, (k - 1) as nat);
    }
}

/// A shark roaming for `time` updates, whose timer stands at `timer`,
/// starts hunting from where it stands at exactly the
/// `time + 2 - timer`-th evaluation.
pub proof fn lemma_roaming_ends_in_hunt<S, P>(m: SharkState<S, P>, time: u32)
    requires
        m.valid(),
        m.behaviour == Behaviour::<P>::Roaming(time),
    ensures
        forall|k: nat|
            k < time + 2 - m.roam_timer ==> (#[trigger] evaluate_n(m, k)).behaviour
                == Behaviour::<P>::Roaming(time),
        evaluate_n(m, (time + 2 - m.roam_timer) as nat) == (SharkState {
            roam_timer: (time + 1) as u32,
            behaviour: Behaviour::<P>::Hunting(m.position),
            ..m
        }),
{
    assert forall|k: nat| k < time + 2 - m.roam_timer implies (#[trigger] evaluate_n(
        m,
        k,
    )).behaviour == Behaviour::<P>::Roaming(time) by {
        lemma_roaming_counts_up(m, time, k);
    }
    let last = (time + 1 - m.roam_timer) as nat;
    lemma_roaming_counts_up(m, time, last);
    let waiting = evaluate_n(m, last);
    lemma_evaluate_n_split(m, last);
    assert(evaluate_step(waiting) == (SharkState {
        roam_timer: (time + 1) as u32,
        behaviour: Behaviour::<P>::Hunting(m.position),
        ..m
    }));
}

/// Evaluating `k + 1` times is evaluating `k` times and then once more.
proof fn lemma_evaluate_n_split<S, P>(m: SharkState<S, P>, k: nat)
    ensures
        evaluate_n(m, k + 1) == evaluate_step(evaluate_n(m, k)),
    decreases k,
{
    assert(evaluate_n(m, k + 1) == evaluate_n(evaluate_step(m), k));
    if k > 0 {
        lemma_evaluate_n_split(evaluate_step(m), (k - 1) as nat);
        assert(evaluate_n(m, k) == evaluate_n(evaluate_step(m), (k - 1) as nat));
    } else {
        assert(evaluate_n(evaluate_step(m), 0) == evaluate_step(m));
    }
}

} // verus!
