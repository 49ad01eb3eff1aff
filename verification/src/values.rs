use vstd::prelude::*;

verus! {

/// One step of the 32-bit xorshift generator with shifts 13, 17 and 5.
pub open spec fn xorshift32(s: u32) -> u32 {
    let a = s ^ (s << 13u32);
    let b = a ^ (a >> 17u32);
    b ^ (b << 5u32)
}

/// The generator state after `k` steps from `seed`.
pub open spec fn xorshift_state(seed: u32, k: nat) -> u32
    decreases k,
{
    if k == 0 {
        seed
    } else {
        xorshift32(xorshift_state(seed, (k - 1) as nat))
    }
}

/// The code of the `i`-th generated value: the state after `i + 1` steps,
/// reduced modulo 201. The value it stands for is `code / 100 - 1`, in
/// `[-1, 1]`.
pub open spec fn value_code(seed: u32, i: nat) -> u8 {
    (xorshift_state(seed, i + 1) % 201) as u8
}

/// The product of the first `k` extents of `shape`.
pub open spec fn prefix_product(shape: Seq<usize>, k: nat) -> nat
    decreases k,
{
    if k == 0 {
        1
    } else {
        prefix_product(shape, (k - 1) as nat) * (shape[k - 1] as nat)
    }
}

/// Multiplying the extents one after another never leaves `usize`.
pub open spec fn product_fits(shape: Seq<usize>) -> bool {
    forall|k: nat| k <= shape.len() ==> #[trigger] prefix_product(shape, k) <= usize::MAX
}

/// The element count of a five-extent shape is the product of its extents,
/// and it is zero exactly when some extent is zero.
pub proof fn lemma_volume_is_product(shape: Seq<usize>)
    requires
        shape.len() == 5,
    ensures
        prefix_product(shape, 5) == shape[0] as nat * shape[1] as nat * shape[2] as nat
            * shape[3] as nat * shape[4] as nat,
        prefix_product(shape, 5) == 0 <==> exists|i: int| 0 <= i < 5 && #[trigger] shape[i] == 0,
{
    reveal_with_fuel(prefix_product, 6);
    let (a, b, c, d, e) = (shape[0] as nat, shape[1] as nat, shape[2] as nat, shape[3] as nat, shape[4] as nat);
    assert(a * b * c * d * e == 0 <==> (a == 0 || b == 0 || c == 0 || d == 0 || e == 0)) by (nonlinear_arith);
    if a * b * c * d * e == 0 {
        if a == 0 { assert(shape[0] == 0); }
        else if b == 0 { assert(shape[1] == 0); }
        else if c == 0 { assert(shape[2] == 0); }
        else if d == 0 { assert(shape[3] == 0); }
        else { assert(shape[4] == 0); }
    }
}

/// A shape of five positive extents whose full product fits in `usize` has
/// every running product fit as well.
pub proof fn lemma_positive_product_fits(shape: Seq<usize>)
    requires
        shape.len() == 5,
        forall|i: int| 0 <= i < 5 ==> #[trigger] shape[i] >= 1,
        shape[0] as nat * shape[1] as nat * shape[2] as nat * shape[3] as nat * shape[4] as nat
            <= usize::MAX,
    ensures
        product_fits(shape),
        prefix_product(shape, 5) == shape[0] as nat * shape[1] as nat * shape[2] as nat
            * shape[3] as nat * shape[4] as nat,
{
    reveal_with_fuel(prefix_product, 6);
    let a = shape[0] as nat;
    let b = shape[1] as nat;
    let c = shape[2] as nat;
    let d = shape[3] as nat;
    let e = shape[4] as nat;
    assert(a >= 1 && b >= 1 && c >= 1 && d >= 1 && e >= 1);
    assert(a <= a * b && a * b <= a * b * c && a * b * c <= a * b * c * d && a * b * c * d
        <= a * b * c * d * e) by (nonlinear_arith)
        requires
            a >= 1,
            b >= 1,
            c >= 1,
            d >= 1,
            e >= 1,
    ;
    assert(prefix_product(shape, 5) == a * b * c * d * e);
    assert forall|k: nat| k <= shape.len() implies #[trigger] prefix_product(shape, k) <= usize::MAX by {
        assert(prefix_product(shape, 1) == a);
        assert(prefix_product(shape, 2) == a * b);
        assert(prefix_product(shape, 3) == a * b * c);
        assert(prefix_product(shape, 4) == a * b * c * d);
        assert(prefix_product(shape, 5) == a * b * c * d * e);
    }
}

/// A shape of five positive extents, each at most the matching bound, has
/// every running product fit when the product of the bounds fits.
pub proof fn lemma_bounded_product_fits(shape: Seq<usize>, bound: Seq<usize>)
    requires
        shape.len() == 5,
        bound.len() == 5,
        forall|i: int| 0 <= i < 5 ==> 1 <= #[trigger] shape[i] <= bound[i],
        bound[0] as nat * bound[1] as nat * bound[2] as nat * bound[3] as nat * bound[4] as nat
            <= usize::MAX,
    ensures
        product_fits(shape),
{
    let (a, b, c, d, e) = (shape[0] as nat, shape[1] as nat, shape[2] as nat, shape[3] as nat, shape[4] as nat);
    let (p, q, r, t, u) = (bound[0] as nat, bound[1] as nat, bound[2] as nat, bound[3] as nat, bound[4] as nat);
    assert(shape[0] <= bound[0] && shape[1] <= bound[1] && shape[2] <= bound[2] && shape[3] <= bound[3]
        && shape[4] <= bound[4]);
    assert(a * b * c * d * e <= p * q * r * t * u) by (nonlinear_arith)
        requires
            a <= p,
            b <= q,
            c <= r,
            d <= t,
            e <= u,
    ;
    lemma_positive_product_fits(shape);
}

/// The first code comes from one generator step on the seed, and each later
/// code is the code one position earlier in the run that starts from the next
/// state: one state is carried through the whole run, so the codes of any
/// count form one unbroken sequence.
pub proof fn lemma_codes_follow_one_state(seed: u32, i: nat)
    ensures
        value_code(seed, 0) == (xorshift32(seed) % 201) as u8,
        value_code(seed, i + 1) == value_code(xorshift32(seed), i),
        value_code(seed, i) <= 200,
{
    reveal_with_fuel(xorshift_state, 2);
    lemma_state_shift(seed, i + 1);
    assert(xorshift_state(seed, 1) == xorshift32(seed));
}

proof fn lemma_state_shift(seed: u32, k: nat)
    ensures
        xorshift_state(seed, k + 1) == xorshift_state(xorshift32(seed), k),
    decreases k,
{
    reveal_with_fuel(xorshift_state, 2);
    if k > 0 {
        lemma_state_shift(seed, (k - 1) as nat);
        assert(xorshift_state(seed, k + 1) == xorshift32(xorshift_state(seed, k)));
        assert(xorshift_state(xorshift32(seed), k) == xorshift32(
            xorshift_state(xorshift32(seed), (k - 1) as nat),
        ));
    }
}

/// The generator never reaches zero from a nonzero state, so a nonzero seed
/// never degenerates into a constant run.
pub proof fn lemma_xorshift_keeps_nonzero(s: u32)
    ensures
        s != 0 ==> xorshift32(s) != 0,
{
    assert(s != 0 ==> ((s ^ (s << 13u32)) ^ ((s ^ (s << 13u32)) >> 17u32)) ^ (((s ^ (s << 13u32))
        ^ ((s ^ (s << 13u32)) >> 17u32)) << 5u32) != 0) by (bit_vector);
}

/// Advances the generator by one step.
pub fn xorshift_step(state: u32) -> (next: u32)
    ensures
        next == xorshift32(state),
{
    let mut s = state;
    s ^= s << 13u32;
    s ^= s >> 17u32;
    s ^= s << 5u32;
    s
}

/// The codes of the first `count` values generated from `seed`, each in
/// `0..=200`.
pub fn value_codes(count: usize, seed: u32) -> (codes: Vec<u8>)
    ensures
        codes@.len() == count,
        forall|i: int| 0 <= i < count ==> #[trigger] codes@[i] == value_code(seed, i as nat),
        forall|i: int| 0 <= i < count ==> #[trigger] codes@[i] <= 200,
{
    let mut codes: Vec<u8> = Vec::new();
    let mut state = seed;
    let mut i: usize = 0;
    while i < count
        invariant
            i <= count,
            codes@.len() == i,
            state == xorshift_state(seed, i as nat),
            forall|j: int| 0 <= j < i ==> #[trigger] codes@[j] == value_code(seed, j as nat),
            forall|j: int| 0 <= j < i ==> #[trigger] codes@[j] <= 200,
        decreases count - i,
    {
        state = xorshift_step(state);
        let code = (state % 201) as u8;
        codes.push(code);
        i = i + 1;
    }
    codes
}

/// The number of elements of a tensor of the given shape, or `None` when a
/// running product of the extents overflows `usize`.
pub fn shape_volume(shape: [usize; 5]) -> (volume: Option<usize>)
    ensures
        volume is Some <==> product_fits(shape@),
        volume matches Some(v) ==> v == prefix_product(shape@, 5),
{
    let mut acc: usize = 1;
    let mut i: usize = 0;
    while i < 5
        invariant
            i <= 5,
            shape@.len() == 5,
            acc == prefix_product(shape@, i as nat),
            forall|k: nat| k <= i ==> #[trigger] prefix_product(shape@, k) <= usize::MAX,
        decreases 5 - i,
    {
        match acc.checked_mul(shape[i]) {
            Some(next) => {
                acc = next;
                i = i + 1;
                assert(prefix_product(shape@, i as nat) == next);
            },
            None => {
                assert(prefix_product(shape@, (i + 1) as nat) > usize::MAX);
                return None;
            },
        }
    }
    Some(acc)
}

/// The value codes of a tensor of the given shape, generated from `seed` in
/// row-major order; `None` when a running product of the extents overflows.
pub fn tensor_codes(shape: [usize; 5], seed: u32) -> (codes: Option<Vec<u8>>)
    ensures
        codes is Some <==> product_fits(shape@),
        codes matches Some(c) ==> c@.len() == prefix_product(shape@, 5) && forall|i: int|
            0 <= i < c@.len() ==> #[trigger] c@[i] == value_code(seed, i as nat),
{
    match shape_volume(shape) {
        Some(count) => Some(value_codes(count, seed)),
        None => None,
    }
}

} // verus!
