//! The random animation pool, and the small deterministic generator the
//! animations draw from.

use vstd::prelude::*;

verus! {

pub const MANDELBROT_STYLE: &'static str = "mandelbrot";

pub const MATRIX_STYLE: &'static str = "matrix";

pub const GAME_OF_LIFE_GLIDERS_STYLE: &'static str = "game_of_life_gliders";

pub const GAME_OF_LIFE_OSCILLATORS_STYLE: &'static str = "game_of_life_oscillators";

pub const GAME_OF_LIFE_BLOOM_STYLE: &'static str = "game_of_life_bloom";

pub const BOIDS_PREDATOR_STYLE: &'static str = "boids_predator";

pub const BOIDS_SCHOOLS_STYLE: &'static str = "boids_schools";

/// The Game of Life variants in the random pool.
pub fn game_of_life_random_styles() -> (styles: Vec<&'static str>)
    ensures
        styles@.map_values(|s: &str| s@) == game_of_life_family(),
{
    let styles = vec![
        GAME_OF_LIFE_GLIDERS_STYLE,
        GAME_OF_LIFE_OSCILLATORS_STYLE,
        GAME_OF_LIFE_BLOOM_STYLE,
    ];
    assert(styles@.map_values(|s: &str| s@) =~= game_of_life_family());
    styles
}

/// The Boids variants in the random pool.
pub fn boids_random_styles() -> (styles: Vec<&'static str>)
    ensures
        styles@.map_values(|s: &str| s@) == boids_family(),
{
    let styles = vec![BOIDS_PREDATOR_STYLE, BOIDS_SCHOOLS_STYLE];
    assert(styles@.map_values(|s: &str| s@) =~= boids_family());
    styles
}

pub open spec fn game_of_life_family() -> Seq<Seq<char>> {
    seq![GAME_OF_LIFE_GLIDERS_STYLE@, GAME_OF_LIFE_OSCILLATORS_STYLE@, GAME_OF_LIFE_BLOOM_STYLE@]
}

pub open spec fn boids_family() -> Seq<Seq<char>> {
    seq![BOIDS_PREDATOR_STYLE@, BOIDS_SCHOOLS_STYLE@]
}

/// The families the random animation rotates through, in rotation order.
pub open spec fn random_families() -> Seq<Seq<Seq<char>>> {
    seq![game_of_life_family(), boids_family(), seq![MANDELBROT_STYLE@], seq![MATRIX_STYLE@]]
}

fn random_animation_families() -> (families: Vec<Vec<&'static str>>)
    ensures
        families@.len() == random_families().len(),
        forall|f: int|
            0 <= f < families@.len() ==> (#[trigger] families@[f])@.map_values(|s: &str| s@)
                == random_families()[f],
{
    let families = vec![
        game_of_life_random_styles(),
        boids_random_styles(),
        vec![MANDELBROT_STYLE],
        vec![MATRIX_STYLE],
    ];
    proof {
        assert(families@[2]@.map_values(|s: &str| s@) =~= seq![MANDELBROT_STYLE@]);
        assert(families@[3]@.map_values(|s: &str| s@) =~= seq![MATRIX_STYLE@]);
    }
    families
}

pub open spec fn spec_gcd(left: nat, right: nat) -> nat
    decreases right,
{
    if right == 0 {
        left
    } else {
        spec_gcd(right, left % right)
    }
}

pub open spec fn spec_lcm(left: nat, right: nat) -> nat {
    if left == 0 || right == 0 {
        0
    } else {
        (left / spec_gcd(left, right)) * right
    }
}

proof fn lemma_gcd_positive(left: nat, right: nat)
    requires
        left > 0 || right > 0,
    ensures
        spec_gcd(left, right) > 0,
        spec_gcd(left, right) <= if left > right { left } else { right },
    decreases right,
{
    if right > 0 {
        lemma_gcd_positive(right, left % right);
    }
}

fn gcd(left: usize, right: usize) -> (g: usize)
    ensures
        g == spec_gcd(left as nat, right as nat),
{
    let ghost start = spec_gcd(left as nat, right as nat);
    let mut left = left;
    let mut right = right;
    while right != 0
        invariant
            spec_gcd(left as nat, right as nat) == start,
        decreases right,
    {
        let remainder = left % right;
        left = right;
        right = remainder;
    }
    left
}

fn lcm(left: usize, right: usize) -> (l: usize)
    requires
        spec_lcm(left as nat, right as nat) <= usize::MAX,
    ensures
        l == spec_lcm(left as nat, right as nat),
{
    if left == 0 || right == 0 {
        return 0;
    }
    let g = gcd(left, right);
    proof {
        lemma_gcd_positive(left as nat, right as nat);
    }
    left / g * right
}

/// `lcm` folded over the family sizes, starting from one.
pub open spec fn lcm_of_sizes(families: Seq<Seq<Seq<char>>>) -> nat
    decreases families.len(),
{
    if families.len() == 0 {
        1
    } else {
        spec_lcm(lcm_of_sizes(families.drop_last()), families.last().len())
    }
}

/// Each family gets this many consecutive rotation rounds, so that every
/// family's styles divide it evenly.
pub open spec fn subpool_width() -> nat {
    lcm_of_sizes(random_families())
}

pub open spec fn slot_count() -> nat {
    random_families().len() * subpool_width()
}

proof fn lemma_subpool_width()
    ensures
        subpool_width() == 6,
        slot_count() == 24,
{
    let fams = random_families();
    reveal_with_fuel(spec_gcd, 4);
    assert(fams.drop_last().drop_last().drop_last().drop_last() =~= Seq::<Seq<Seq<char>>>::empty());
    assert(fams.len() == 4);
    assert(fams[0].len() == 3);
    assert(fams[1].len() == 2);
    assert(fams[2].len() == 1);
    assert(fams[3].len() == 1);
    let f1 = fams.drop_last().drop_last().drop_last();
    let f2 = fams.drop_last().drop_last();
    let f3 = fams.drop_last();
    assert(f1.last() == fams[0]);
    assert(f2.last() == fams[1]);
    assert(f3.last() == fams[2]);
    assert(f1.drop_last() =~= Seq::<Seq<Seq<char>>>::empty());
    assert(lcm_of_sizes(f1.drop_last()) == 1);
    assert(f1.last() == fams[0]);
    assert(lcm_of_sizes(f1) == spec_lcm(1, 3));
    assert(spec_gcd(1, 3) == 1);
    let g13 = spec_gcd(1, 3);
    assert(1nat / g13 == 1) by (nonlinear_arith)
        requires
            g13 == 1,
    ;
    assert(spec_lcm(1, 3) == 3);
    assert(lcm_of_sizes(f1) == 3);
    assert(spec_gcd(3, 2) == 1);
    assert(lcm_of_sizes(f2) == 6);
    assert(spec_gcd(6, 1) == 1);
    assert(lcm_of_sizes(f3) == 6);
    assert(lcm_of_sizes(fams) == 6);
}

fn random_animation_subpool_width() -> (width: usize)
    ensures
        width == subpool_width(),
{
    let families = random_animation_families();
    let mut width: usize = 1;
    let mut i: usize = 0;
    proof {
        lemma_subpool_width();
    }
    while i < families.len()
        invariant
            i <= families@.len(),
            families@.len() == random_families().len(),
            forall|f: int|
                0 <= f < families@.len() ==> (#[trigger] families@[f])@.map_values(|s: &str| s@)
                    == random_families()[f],
            width == lcm_of_sizes(random_families().take(i as int)),
        decreases families.len() - i,
    {
        proof {
            assert(random_families().take(i + 1).drop_last() =~= random_families().take(i as int));
            assert(families@[i as int]@.len() == random_families()[i as int].len());
            lemma_prefix_lcm_small(i as int);
        }
        width = lcm(width, families[i].len());
        i = i + 1;
    }
    proof {
        assert(random_families().take(i as int) =~= random_families());
    }
    width
}

proof fn lemma_prefix_lcm_small(i: int)
    requires
        0 <= i < 4,
    ensures
        spec_lcm(lcm_of_sizes(random_families().take(i)), random_families()[i].len()) <= 6,
        lcm_of_sizes(random_families().take(i + 1)) == spec_lcm(
            lcm_of_sizes(random_families().take(i)),
            random_families()[i].len(),
        ),
{
    let fams = random_families();
    reveal_with_fuel(spec_gcd, 4);
    assert(fams.take(i + 1).drop_last() =~= fams.take(i));
    assert(fams.take(i + 1).last() == fams[i]);
    assert(fams.take(0) =~= Seq::<Seq<Seq<char>>>::empty());
    assert(fams.take(1).drop_last() =~= fams.take(0));
    assert(fams.take(2).drop_last() =~= fams.take(1));
    assert(fams.take(3).drop_last() =~= fams.take(2));
    assert(fams.take(1).last() == fams[0]);
    assert(lcm_of_sizes(fams.take(0)) == 1);
    assert(fams.take(2).last() == fams[1]);
    assert(fams.take(3).last() == fams[2]);
    assert(spec_gcd(1, 3) == 1);
    assert(spec_gcd(3, 2) == 1);
    assert(spec_gcd(6, 1) == 1);
    let g13 = spec_gcd(1, 3);
    assert(1nat / g13 == 1) by (nonlinear_arith)
        requires
            g13 == 1,
    ;
    assert(spec_lcm(1, 3) == 3);
    assert(lcm_of_sizes(fams.take(1)) == 3);
    assert(lcm_of_sizes(fams.take(2)) == 6);
    assert(lcm_of_sizes(fams.take(3)) == 6);
}

/// Number of rotation slots the random animation picks from.
pub fn random_animation_slot_count() -> (count: usize)
    ensures
        count == slot_count(),
{
    proof {
        lemma_subpool_width();
    }
    4 * random_animation_subpool_width()
}

/// The random pool: the families' styles, family by family.
pub open spec fn random_pool() -> Seq<Seq<char>> {
    random_families()[0] + random_families()[1] + random_families()[2] + random_families()[3]
}

/// Every style of the random pool, family by family.
pub fn random_animation_styles() -> (styles: Vec<&'static str>)
    ensures
        styles@.map_values(|s: &str| s@) == random_pool(),
{
    let families = random_animation_families();
    let mut styles: Vec<&'static str> = Vec::new();
    let mut f: usize = 0;
    while f < families.len()
        invariant
            f <= families@.len(),
            families@.len() == 4,
            forall|k: int|
                0 <= k < families@.len() ==> (#[trigger] families@[k])@.map_values(|s: &str| s@)
                    == random_families()[k],
            styles@.map_values(|s: &str| s@) == flatten_families(random_families().take(f as int)),
        decreases families.len() - f,
    {
        let mut i: usize = 0;
        let ghost start = styles@.map_values(|s: &str| s@);
        while i < families[f].len()
            invariant
                f < families@.len(),
                i <= families@[f as int]@.len(),
                styles@.map_values(|s: &str| s@) == start + families@[f as int]@.map_values(
                    |s: &str| s@,
                ).take(i as int),
            decreases families@[f as int]@.len() - i,
        {
            let ghost before = styles@;
            let ghost mapped = families@[f as int]@.map_values(|s: &str| s@);
            let style = families[f][i];
            styles.push(style);
            proof {
                assert(styles@ =~= before.push(style));
                assert(styles@.map_values(|s: &str| s@) =~= before.map_values(|s: &str| s@).push(
                    style@,
                ));
                assert(style@ == mapped[i as int]);
                assert(mapped.take(i + 1) =~= mapped.take(i as int).push(mapped[i as int]));
            }
            i = i + 1;
        }
        proof {
            assert(families@[f as int]@.map_values(|s: &str| s@).take(i as int) =~= random_families()[f as int]);
            assert(random_families().take(f + 1).drop_last() =~= random_families().take(f as int));
        }
        f = f + 1;
    }
    proof {
        let fams = random_families();
        assert(fams.take(4) =~= fams);
        assert(fams.take(4).drop_last() =~= fams.take(3));
        assert(fams.take(3).drop_last() =~= fams.take(2));
        assert(fams.take(2).drop_last() =~= fams.take(1));
        assert(fams.take(1).drop_last() =~= fams.take(0));
        assert(flatten_families(fams.take(0)) =~= Seq::<Seq<char>>::empty());
        assert(fams.take(1).last() == fams[0]);
        assert(fams.take(2).last() == fams[1]);
        assert(fams.take(3).last() == fams[2]);
        assert(fams.take(4).last() == fams[3]);
        assert(flatten_families(fams.take(1)) =~= fams[0]);
        assert(flatten_families(fams.take(2)) =~= fams[0] + fams[1]);
        assert(flatten_families(fams.take(3)) =~= fams[0] + fams[1] + fams[2]);
        assert(flatten_families(fams) =~= fams[0] + fams[1] + fams[2] + fams[3]);
    }
    styles
}

pub open spec fn flatten_families(families: Seq<Seq<Seq<char>>>) -> Seq<Seq<char>>
    decreases families.len(),
{
    if families.len() == 0 {
        Seq::empty()
    } else {
        flatten_families(families.drop_last()) + families.last()
    }
}

/// The style in rotation slot `index`: slots cycle through the families, and
/// each family through its own styles once every full round of families.
pub open spec fn random_style_at(index: nat) -> Seq<char> {
    let selected = index % slot_count();
    let family = random_families()[(selected % 4) as int];
    family[(((selected / 4) % subpool_width()) % family.len()) as int]
}

proof fn lemma_slot_style(i: nat)
    requires
        i < 24,
    ensures
        random_style_at(i) == random_families()[(i % 4) as int][(((i / 4) % 6) % random_families()[(i
            % 4) as int].len()) as int],
{
    lemma_subpool_width();
}

/// The random pool names each style once, holds the style of every rotation
/// slot, and each of its styles is the style of some slot.
pub proof fn lemma_random_pool_is_the_slot_styles()
    ensures
        random_pool().len() == 7,
        random_pool().no_duplicates(),
        forall|i: nat| random_pool().contains(#[trigger] random_style_at(i)),
        forall|k: int|
            #![trigger random_pool()[k]]
            0 <= k < random_pool().len() ==> exists|i: nat|
                i < slot_count() && #[trigger] random_style_at(i) == random_pool()[k],
{
    reveal_strlit("game_of_life_gliders");
    reveal_strlit("game_of_life_oscillators");
    reveal_strlit("game_of_life_bloom");
    reveal_strlit("boids_predator");
    reveal_strlit("boids_schools");
    reveal_strlit("mandelbrot");
    reveal_strlit("matrix");
    lemma_subpool_width();
    let pool = random_pool();
    let fams = random_families();
    assert(pool =~= seq![
        GAME_OF_LIFE_GLIDERS_STYLE@,
        GAME_OF_LIFE_OSCILLATORS_STYLE@,
        GAME_OF_LIFE_BLOOM_STYLE@,
        BOIDS_PREDATOR_STYLE@,
        BOIDS_SCHOOLS_STYLE@,
        MANDELBROT_STYLE@,
        MATRIX_STYLE@,
    ]);
    assert forall|a: int, b: int| 0 <= a < pool.len() && 0 <= b < pool.len() && a != b implies pool[a]
        != pool[b] by {
        assert(pool[a].len() != pool[b].len());
    }
    assert forall|i: nat| pool.contains(#[trigger] random_style_at(i)) by {
        let selected = i % 24;
        let f = selected % 4;
        let k = ((selected / 4) % 6) % fams[f as int].len();
        if f == 0 {
            assert(pool[k as int] == random_style_at(i));
        } else if f == 1 {
            assert(pool[3 + k as int] == random_style_at(i));
        } else if f == 2 {
            assert(pool[5] == random_style_at(i));
        } else {
            assert(pool[6] == random_style_at(i));
        }
    }
    lemma_slot_style(0);
    lemma_slot_style(4);
    lemma_slot_style(8);
    lemma_slot_style(1);
    lemma_slot_style(5);
    lemma_slot_style(2);
    lemma_slot_style(3);
    assert(fams[0].len() == 3 && fams[1].len() == 2 && fams[2].len() == 1 && fams[3].len() == 1);
    assert(fams[0][0] == pool[0] && fams[0][1] == pool[1] && fams[0][2] == pool[2]);
    assert(fams[1][0] == pool[3] && fams[1][1] == pool[4] && fams[2][0] == pool[5] && fams[3][0]
        == pool[6]);
    assert(0nat % 4 == 0 && 4nat % 4 == 0 && 8nat % 4 == 0 && 1nat % 4 == 1 && 5nat % 4 == 1
        && 2nat % 4 == 2 && 3nat % 4 == 3);
    assert((((0nat / 4) % 6) % 3) == 0 && (((4nat / 4) % 6) % 3) == 1 && (((8nat / 4) % 6) % 3)
        == 2);
    assert((((1nat / 4) % 6) % 2) == 0 && (((5nat / 4) % 6) % 2) == 1);
    assert((((2nat / 4) % 6) % 1) == 0 && (((3nat / 4) % 6) % 1) == 0);
    assert(random_style_at(0) == pool[0]);
    assert(random_style_at(4) == pool[1]);
    assert(random_style_at(8) == pool[2]);
    assert(random_style_at(1) == pool[3]);
    assert(random_style_at(5) == pool[4]);
    assert(random_style_at(2) == pool[5]);
    assert(random_style_at(3) == pool[6]);
}

/// The random pool holds animations only: neither card, and none of the
/// animations kept out of the rotation.
pub proof fn lemma_random_pool_excludes()
    ensures
        !random_pool().contains(crate::screen_runner::STATIC_STYLE@),
        !random_pool().contains(crate::screen_runner::LOGO_STYLE@),
        !random_pool().contains(crate::friends_and_enemies::FRIENDS_AND_ENEMIES_STYLE@),
        !random_pool().contains(crate::physarum::PHYSARUM_STYLE@),
        !random_pool().contains(crate::chladni::CHLADNI_STYLE@),
{
    reveal_strlit("game_of_life_gliders");
    reveal_strlit("game_of_life_oscillators");
    reveal_strlit("game_of_life_bloom");
    reveal_strlit("boids_predator");
    reveal_strlit("boids_schools");
    reveal_strlit("mandelbrot");
    reveal_strlit("matrix");
    reveal_strlit("static");
    reveal_strlit("logo");
    reveal_strlit("friends_and_enemies");
    reveal_strlit("physarum");
    reveal_strlit("chladni");
    lemma_random_pool_is_the_slot_styles();
    let pool = random_pool();
    assert(pool[6][0] != crate::screen_runner::STATIC_STYLE@[0]);
    assert forall|k: int| 0 <= k < pool.len() implies pool[k] != crate::physarum::PHYSARUM_STYLE@
        && pool[k] != crate::chladni::CHLADNI_STYLE@ && pool[k]
        != crate::friends_and_enemies::FRIENDS_AND_ENEMIES_STYLE@ && pool[k]
        != crate::screen_runner::LOGO_STYLE@ && pool[k] != crate::screen_runner::STATIC_STYLE@ by {
        assert(pool[k].len() != crate::physarum::PHYSARUM_STYLE@.len());
        assert(pool[k].len() != crate::chladni::CHLADNI_STYLE@.len());
        assert(pool[k].len() != crate::friends_and_enemies::FRIENDS_AND_ENEMIES_STYLE@.len());
        assert(pool[k].len() != crate::screen_runner::LOGO_STYLE@.len());
        if k == 6 {
            assert(pool[k][0] != crate::screen_runner::STATIC_STYLE@[0]);
        } else {
            assert(pool[k].len() != crate::screen_runner::STATIC_STYLE@.len());
        }
    }
}

/// Chooses the random animation for rotation slot `random_index`, or for a
/// slot picked from the clock when none is given.
pub fn resolve_random_animation_style(random_index: Option<usize>) -> (style: &'static str)
    ensures
        random_index matches Some(i) ==> style@ == random_style_at(i as nat),
        random_index is None ==> exists|i: nat| i < slot_count() && style@ == random_style_at(i),
{
    let subpool = random_animation_subpool_width();
    let family_count: usize = 4;
    proof {
        lemma_subpool_width();
    }
    let slots = family_count * subpool;
    let selected = match random_index {
        Some(i) => i % slots,
        None => system_random_index(slots) % slots,
    };
    let family = selected % family_count;
    let family_index = (selected / family_count) % subpool;
    let families = random_animation_families();
    let styles = &families[family];
    proof {
        assert(styles@.map_values(|s: &str| s@) == random_families()[family as int]);
        assert(styles@.len() > 0);
    }
    let style = styles[family_index % styles.len()];
    proof {
        assert(style@ == styles@.map_values(|s: &str| s@)[(family_index as nat % styles@.len()) as int]);
        if random_index is None {
            assert((selected as nat) % slot_count() == selected);
            assert(style@ == random_style_at(selected as nat));
        }
    }
    style
}

/// `std::time::SystemTime`, carried opaque from the clock to `since_unix_epoch`.
#[verifier::external_type_specification]
#[verifier::external_body]
pub struct ExSystemTime(std::time::SystemTime);

/// `std::time::SystemTime::now`: the current wall-clock time. Nothing is
/// claimed of its value.
#[verifier::external_body]
fn system_time_now() -> std::time::SystemTime {
    std::time::SystemTime::now()
}

/// `SystemTime::duration_since(UNIX_EPOCH)`, with the error (a clock set
/// before 1970) turned into `None`. Nothing is claimed of the duration.
#[verifier::external_body]
fn since_unix_epoch(time: &std::time::SystemTime) -> Option<std::time::Duration> {
    time.duration_since(std::time::UNIX_EPOCH).ok()
}

/// `Duration::subsec_nanos`: documented to be below one billion.
pub assume_specification[ std::time::Duration::subsec_nanos ](duration: &std::time::Duration) -> (nanos: u32)
    ensures
        nanos < 1_000_000_000,
;

/// A nanosecond count reduced below `max_len` (below one when `max_len` is zero).
pub open spec fn clock_index(nanos: nat, max_len: usize) -> nat {
    nanos % (if max_len == 0 { 1 } else { max_len as nat })
}

/// The slot a clock reading picks: `nanos` modulo `max_len` (zero when
/// `max_len` is zero).
pub fn clock_slot(nanos: u32, max_len: usize) -> (index: usize)
    ensures
        index == clock_index(nanos as nat, max_len),
        index < if max_len == 0 { 1 } else { max_len },
{
    let bound = if max_len == 0 { 1 } else { max_len };
    (nanos as usize) % bound
}

/// A clock-derived index below `max_len` (below one when `max_len` is zero):
/// the nanosecond fraction of the current time (zero for a clock set before
/// 1970) modulo that bound.
pub fn system_random_index(max_len: usize) -> (index: usize)
    ensures
        index < if max_len == 0 { 1 } else { max_len },
        exists|nanos: nat| nanos < 1_000_000_000 && index == #[trigger] clock_index(nanos, max_len),
{
    let nanos: u32 = match since_unix_epoch(&system_time_now()) {
        Some(duration) => duration.subsec_nanos(),
        None => 0,
    };
    let index = clock_slot(nanos, max_len);
    assert(nanos < 1_000_000_000 && index == clock_index(nanos as nat, max_len));
    index
}

/// One step of the generator: `seed * 6364136223846793005 + 1`, modulo 2^64.
pub open spec fn lcg_step(seed: u64) -> u64 {
    vstd::wrapping::u64_specs::wrapping_add(
        vstd::wrapping::u64_specs::wrapping_mul(seed, 6_364_136_223_846_793_005),
        1,
    )
}

/// Advances `seed` one generator step and returns the new state's top 31
/// bits; divided by 2^31 they give a sample in `[0, 1)`.
pub fn advance_seed(seed: &mut u64) -> (high: u64)
    ensures
        *final(seed) == lcg_step(*old(seed)),
        high == lcg_step(*old(seed)) >> 33,
        high < 0x8000_0000,
{
    *seed = seed.wrapping_mul(6_364_136_223_846_793_005).wrapping_add(1);
    let high = *seed >> 33;
    let s = *seed;
    assert(s >> 33 < 0x8000_0000u64) by (bit_vector);
    high
}

/// The spacing of double-precision values around the integer `n`: one below
/// 2^53, and doubling with each further binary digit of `n`.
pub open spec fn double_spacing(n: nat) -> nat
    decreases n,
{
    if n < 0x20_0000_0000_0000 {
        1
    } else {
        2 * double_spacing(n / 2)
    }
}

/// `n` rounded to the nearest double-precision value, ties to the even
/// significand.
pub open spec fn round_to_double(n: nat) -> nat {
    let p = double_spacing(n);
    let q = n / p;
    let r = n % p;
    if 2 * r > p || (2 * r == p && q % 2 == 1) {
        (q + 1) * p
    } else {
        q * p
    }
}

/// `length` scaled by the sample `high / 2^31` in double precision and
/// truncated: `length` and the product are each rounded to the nearest double.
pub open spec fn scaled_index(high: u64, length: nat) -> nat {
    round_to_double((high as nat) * round_to_double(length)) / 0x8000_0000
}

proof fn lemma_double_spacing(n: nat)
    ensures
        double_spacing(n) >= 1,
        n < 0x20_0000_0000_0000 ==> double_spacing(n) == 1,
        n >= 0x20_0000_0000_0000 ==> double_spacing(n) * 0x10_0000_0000_0000 <= n,
    decreases n,
{
    if n >= 0x20_0000_0000_0000 {
        let half = n / 2;
        lemma_double_spacing(half);
        let sp = double_spacing(half);
        if half >= 0x20_0000_0000_0000 {
            assert(2 * sp * 0x10_0000_0000_0000 <= n) by (nonlinear_arith)
                requires
                    sp * 0x10_0000_0000_0000 <= half,
                    half == n / 2,
            ;
        }
    }
}

proof fn lemma_round_to_double(n: nat)
    ensures
        n < 0x20_0000_0000_0000 ==> round_to_double(n) == n,
        0x20_0000_0000_0000 * round_to_double(n) <= 0x20_0000_0000_0001 * n,
{
    let p = double_spacing(n);
    let q = n / p;
    let r = n % p;
    lemma_double_spacing(n);
    vstd::arithmetic::div_mod::lemma_fundamental_div_mod(n as int, p as int);
    let rounded = round_to_double(n);
    assert(2 * rounded <= 2 * n + p) by (nonlinear_arith)
        requires
            n == p * q + r,
            0 <= r < p,
            rounded == (if 2 * r > p || (2 * r == p && q % 2 == 1) {
                (q + 1) * p
            } else {
                q * p
            }),
    ;
    if n < 0x20_0000_0000_0000 {
        assert(rounded == n) by (nonlinear_arith)
            requires
                p == 1,
                n == p * q + r,
                0 <= r < p,
                rounded == (if 2 * r > p || (2 * r == p && q % 2 == 1) {
                    (q + 1) * p
                } else {
                    q * p
                }),
        ;
    }
}

pub(crate) proof fn lemma_scaled_index(high: u64, length: nat)
    requires
        high < 0x8000_0000,
    ensures
        scaled_index(high, length) <= length,
        length > 0 ==> scaled_index(high, length) < length,
        round_to_double(length) <= 2 * length,
        round_to_double((high as nat) * round_to_double(length)) <= 0x8000_0000 * 2 * 2 * length,
{
    let rl = round_to_double(length);
    let x = (high as nat) * rl;
    let s = round_to_double(x);
    lemma_round_to_double(length);
    lemma_round_to_double(x);
    assert(x <= 0x7fff_ffff * rl) by (nonlinear_arith)
        requires
            high < 0x8000_0000,
            x == (high as nat) * rl,
    ;
    assert(0x20_0000_0000_0000 * 0x20_0000_0000_0000 * s <= 0x20_0000_0000_0001
        * 0x20_0000_0000_0001 * 0x7fff_ffff * length) by (nonlinear_arith)
        requires
            0x20_0000_0000_0000 * s <= 0x20_0000_0000_0001 * x,
            0x20_0000_0000_0000 * rl <= 0x20_0000_0000_0001 * length,
            x <= 0x7fff_ffff * rl,
    ;
    assert(s <= 0x8000_0000 * length) by (nonlinear_arith)
        requires
            0x20_0000_0000_0000 * 0x20_0000_0000_0000 * s <= 0x20_0000_0000_0001
                * 0x20_0000_0000_0001 * 0x7fff_ffff * length,
    ;
    assert(s <= 0x8000_0000 * 2 * 2 * length) by (nonlinear_arith)
        requires
            s <= 0x8000_0000 * length,
    ;
    assert(rl <= 2 * length);
    if length > 0 {
        assert(s < 0x8000_0000 * length) by (nonlinear_arith)
            requires
                0x20_0000_0000_0000 * 0x20_0000_0000_0000 * s <= 0x20_0000_0000_0001
                    * 0x20_0000_0000_0001 * 0x7fff_ffff * length,
                length > 0,
        ;
        assert(s / 0x8000_0000 < length) by (nonlinear_arith)
            requires
                s < 0x8000_0000 * length,
        ;
    } else {
        assert(s == 0);
    }
}

/// The spacing of doubles around `n`, with `n` divided by it.
fn double_spacing_of(n: u128) -> (result: (u128, u128))
    ensures
        result.0 == double_spacing(n as nat),
        result.1 == n as nat / double_spacing(n as nat),
{
    let mut spacing: u128 = 1;
    let mut quotient: u128 = n;
    while quotient >= 0x20_0000_0000_0000
        invariant
            spacing >= 1,
            quotient == n as nat / spacing as nat,
            spacing * double_spacing(quotient as nat) == double_spacing(n as nat),
        decreases quotient,
    {
        proof {
            vstd::arithmetic::div_mod::lemma_fundamental_div_mod(n as int, spacing as int);
            assert(spacing * 2 <= n) by (nonlinear_arith)
                requires
                    n == spacing * quotient + n % spacing,
                    n % spacing >= 0,
                    quotient >= 2,
                    spacing >= 1,
            ;
            vstd::arithmetic::div_mod::lemma_div_denominator(n as int, spacing as int, 2);
            let ds = double_spacing((quotient / 2) as nat);
            assert(double_spacing(quotient as nat) == 2 * ds);
            assert(spacing * (2 * ds) == (spacing * 2) * ds) by (nonlinear_arith);
        }
        spacing = spacing * 2;
        quotient = quotient / 2;
    }
    proof {
        assert(spacing * 1 == spacing);
    }
    (spacing, quotient)
}

/// `n` rounded to the nearest double, ties to the even significand.
fn round_to_double_exec(n: u128) -> (rounded: u128)
    requires
        n < 0x4000_0000_0000_0000_0000_0000_0000_0000,
    ensures
        rounded == round_to_double(n as nat),
{
    let (spacing, quotient) = double_spacing_of(n);
    proof {
        lemma_double_spacing(n as nat);
        vstd::arithmetic::div_mod::lemma_fundamental_div_mod(n as int, spacing as int);
        assert(quotient * spacing <= n && spacing <= n + 1) by (nonlinear_arith)
            requires
                n == spacing * quotient + n % spacing,
                n % spacing >= 0,
                n >= 0x20_0000_0000_0000 ==> spacing * 0x10_0000_0000_0000 <= n,
                n < 0x20_0000_0000_0000 ==> spacing == 1,
        ;
    }
    let base = quotient * spacing;
    let remainder = n - base;
    proof {
        assert(remainder == n % spacing) by (nonlinear_arith)
            requires
                n == spacing * quotient + n % spacing,
                base == quotient * spacing,
                remainder == n - base,
        ;
    }
    if 2 * remainder > spacing || (2 * remainder == spacing && quotient % 2 == 1) {
        proof {
            assert((quotient + 1) * spacing == base + spacing) by (nonlinear_arith)
                requires
                    base == quotient * spacing,
            ;
        }
        base + spacing
    } else {
        base
    }
}

/// Advances `seed` and picks an index below `length` (zero when `length` is
/// zero): the sample times `length`, in double precision, truncated.
pub fn seeded_index(seed: &mut u64, length: usize) -> (index: usize)
    ensures
        *final(seed) == lcg_step(*old(seed)),
        index == scaled_index(lcg_step(*old(seed)) >> 33, length as nat),
        length > 0 ==> index < length,
        length == 0 ==> index == 0,
{
    let high = advance_seed(seed);
    proof {
        lemma_scaled_index(high, length as nat);
    }
    let rounded_length = round_to_double_exec(length as u128);
    let h: u128 = high as u128;
    assert(h * rounded_length <= 0x8000_0000 * (2 * 0x1_0000_0000_0000_0000)) by (nonlinear_arith)
        requires
            h < 0x8000_0000,
            rounded_length <= 2 * 0x1_0000_0000_0000_0000,
    ;
    let product = round_to_double_exec(h * rounded_length);
    let index: u128 = product / 0x8000_0000;
    index as usize
}

pub open spec fn size_seed_spec(width: usize, height: usize, salt: u64) -> u64 {
    vstd::wrapping::u64_specs::wrapping_add(
        vstd::wrapping::u64_specs::wrapping_add(
            vstd::wrapping::u64_specs::wrapping_mul(width as u64, 1_103_515_245),
            vstd::wrapping::u64_specs::wrapping_mul(height as u64, 12_345),
        ),
        salt,
    )
}

/// A starting generator state derived from a canvas size and a per-effect salt.
pub fn size_seed(width: usize, height: usize, salt: u64) -> (seed: u64)
    ensures
        seed == size_seed_spec(width, height, salt),
{
    (width as u64).wrapping_mul(1_103_515_245).wrapping_add(
        (height as u64).wrapping_mul(12_345),
    ).wrapping_add(salt)
}

} // verus!
