//! Seeded chaos: whether a place in the code misbehaves this time. The decision
//! depends on the seed, the place and how often the place was passed.

use vstd::prelude::*;
use vstd::utf8::encode_utf8;

use crate::config::{env_number_or, env_u64_or};
use crate::dst_rng::wrapped_product;
use crate::text::{
    chars_are, chars_of, dec, dec_text, lower_chars, lowered, parse_uint, same_text, text_opt,
};

verus! {

/// The values of the variables that control the chaos.
#[derive(Debug, Clone)]
pub struct BuggifyEnv {
    /// `WMBT_KV_DST_BUGGIFY`
    pub enabled: Option<String>,
    /// `WMBT_KV_DST_BUGGIFY_SEED`
    pub seed: Option<String>,
    /// `WMBT_KV_DST_BUGGIFY_ACTIVATION_PERCENT`
    pub activation_percent: Option<String>,
    /// `WMBT_KV_DST_BUGGIFY_FIRE_PERCENT`
    pub fire_percent: Option<String>,
}

/// The settings of the chaos.
#[derive(Debug, Clone, Copy, PartialEq, Eq, Structural)]
pub struct BuggifyConfig {
    pub seed: u64,
    pub activation_percent: u8,
    pub fire_percent: u8,
}

/// Whether the chaos is on: the variable is set, and neither to `0` nor to
/// `false` in any case.
pub open spec fn chaos_on(enabled: Option<Seq<char>>) -> bool {
    match enabled {
        Some(value) => value != "0"@ && lowered(value) != "false"@,
        None => false,
    }
}

fn percent_or(value: &Option<String>, default: u8) -> (percent: u8)
    ensures
        percent == env_number_or(text_opt(*value), u8::MAX as nat, default as nat),
{
    match value {
        Some(text) => {
            let chars = chars_of(text);
            match parse_uint(&chars, u8::MAX as u128) {
                Some(n) => n as u8,
                None => default,
            }
        },
        None => default,
    }
}

impl BuggifyConfig {
    /// The settings, none where the chaos is off.
    pub fn from_env(env: &BuggifyEnv) -> (config: Option<Self>)
        ensures
            match config {
                Some(c) => {
                    &&& chaos_on(text_opt(env.enabled))
                    &&& c.seed == env_number_or(text_opt(env.seed), u64::MAX as nat, 1)
                    &&& c.activation_percent == env_number_or(
                        text_opt(env.activation_percent),
                        u8::MAX as nat,
                        25,
                    )
                    &&& c.fire_percent == env_number_or(
                        text_opt(env.fire_percent),
                        u8::MAX as nat,
                        25,
                    )
                },
                None => !chaos_on(text_opt(env.enabled)),
            },
    {
        match &env.enabled {
            None => {
                return None;
            },
            Some(value) => {
                if same_text(value, "0") || chars_are(&lower_chars(&chars_of(value)), "false") {
                    return None;
                }
            },
        }
        Some(
            BuggifyConfig {
                seed: env_u64_or(&env.seed, 1),
                activation_percent: percent_or(&env.activation_percent, 25),
                fire_percent: percent_or(&env.fire_percent, 25),
            },
        )
    }
}

// ---- rolls ----

/// A number with its bits mixed.
pub open spec fn mixed(x: u64) -> u64 {
    let a = x ^ (x >> 33);
    let b = wrapped_product(a, 0xff51_afd7_ed55_8ccd);
    let c = b ^ (b >> 33);
    let d = wrapped_product(c, 0xc4ce_b9fe_1a85_ec53);
    d ^ (d >> 33)
}

fn mix(x: u64) -> (y: u64)
    ensures
        y == mixed(x),
{
    let a: u64 = x ^ (x >> 33);
    let b: u64 = a.wrapping_mul(0xff51_afd7_ed55_8ccd);
    let c: u64 = b ^ (b >> 33);
    let d: u64 = c.wrapping_mul(0xc4ce_b9fe_1a85_ec53);
    d ^ (d >> 33)
}

/// A number with its bits rotated left by five.
pub open spec fn rotated(x: u64) -> u64 {
    (x << 5) | (x >> 59)
}

/// A hash with a file's name folded into it.
pub open spec fn folded(hash: u64, file: Seq<u8>) -> u64
    decreases file.len(),
{
    if file.len() == 0 {
        hash
    } else {
        wrapped_product(
            rotated(folded(hash, file.drop_last())) ^ (file.last() as u64),
            0x517c_c1b7_2722_0a95,
        )
    }
}

/// The hash of a place in the code, for a seed and a count.
pub open spec fn site_hash(seed: u64, file: Seq<u8>, line: u32, ordinal: u64) -> u64 {
    mixed(
        folded(seed ^ wrapped_product(line as u64, 0x9e37_79b9_7f4a_7c15), file) ^ wrapped_product(
            ordinal,
            0x94d0_49bb_1331_11eb,
        ),
    )
}

fn callsite_hash(seed: u64, file: &str, line: u32, ordinal: u64) -> (hash: u64)
    ensures
        hash == site_hash(seed, encode_utf8(file@), line, ordinal),
{
    let bytes = file.as_bytes();
    let ghost start = seed ^ wrapped_product(line as u64, 0x9e37_79b9_7f4a_7c15);
    let mut hash: u64 = seed ^ (line as u64).wrapping_mul(0x9e37_79b9_7f4a_7c15);
    let mut i: usize = 0;
    while i < bytes.len()
        invariant
            i <= bytes@.len(),
            hash == folded(start, bytes@.take(i as int)),
        decreases bytes@.len() - i,
    {
        proof {
            assert(bytes@.take(i + 1).drop_last() =~= bytes@.take(i as int));
        }
        hash = ((hash << 5) | (hash >> 59)) ^ (bytes[i] as u64);
        hash = hash.wrapping_mul(0x517c_c1b7_2722_0a95);
        i = i + 1;
    }
    assert(bytes@.take(i as int) =~= bytes@);
    mix(hash ^ ordinal.wrapping_mul(0x94d0_49bb_1331_11eb))
}

// ---- counts ----

/// How often a place was passed.
#[derive(Debug, Clone)]
pub struct SiteCount {
    pub file: String,
    pub line: u32,
    pub count: u64,
}

/// How often each place was passed.
#[derive(Debug, Clone)]
pub struct Counters {
    pub sites: Vec<SiteCount>,
}

/// How often a place was passed, according to the first entry for it.
pub open spec fn count_of(sites: Seq<SiteCount>, file: Seq<char>, line: u32) -> u64
    decreases sites.len(),
{
    if sites.len() == 0 {
        0
    } else if sites[0].file@ == file && sites[0].line == line {
        sites[0].count
    } else {
        count_of(sites.drop_first(), file, line)
    }
}

/// Forget all counts.
pub fn reset(counters: &mut Counters)
    ensures
        final(counters).sites@.len() == 0,
{
    counters.sites = Vec::new();
}

proof fn lemma_count_found(sites: Seq<SiteCount>, file: Seq<char>, line: u32, at: int)
    requires
        0 <= at < sites.len(),
        sites[at].file@ == file && sites[at].line == line,
        forall|j: int|
            0 <= j < at ==> !((#[trigger] sites[j]).file@ == file && sites[j].line == line),
    ensures
        count_of(sites, file, line) == sites[at].count,
    decreases sites.len(),
{
    if at > 0 {
        assert(!(sites[0].file@ == file && sites[0].line == line));
        assert forall|j: int| 0 <= j < at - 1 implies !((
        #[trigger] sites.drop_first()[j]).file@ == file && sites.drop_first()[j].line == line) by {
            assert(sites.drop_first()[j] == sites[j + 1]);
        }
        lemma_count_found(sites.drop_first(), file, line, at - 1);
    }
}

proof fn lemma_count_absent(sites: Seq<SiteCount>, file: Seq<char>, line: u32)
    requires
        forall|j: int|
            0 <= j < sites.len() ==> !((#[trigger] sites[j]).file@ == file && sites[j].line
                == line),
    ensures
        count_of(sites, file, line) == 0,
    decreases sites.len(),
{
    if sites.len() > 0 {
        assert(!(sites[0].file@ == file && sites[0].line == line));
        assert forall|j: int| 0 <= j < sites.len() - 1 implies !((
        #[trigger] sites.drop_first()[j]).file@ == file && sites.drop_first()[j].line == line) by {
            assert(sites.drop_first()[j] == sites[j + 1]);
        }
        lemma_count_absent(sites.drop_first(), file, line);
    }
}

/// A changed count shows at its place and nowhere else.
proof fn lemma_count_updated(
    before: Seq<SiteCount>,
    after: Seq<SiteCount>,
    at: int,
    f: Seq<char>,
    l: u32,
)
    requires
        0 <= at < before.len() == after.len(),
        after[at].file@ == before[at].file@ && after[at].line == before[at].line,
        forall|j: int| 0 <= j < before.len() && j != at ==> after[j] == #[trigger] before[j],
        !(before[at].file@ == f && before[at].line == l),
    ensures
        count_of(after, f, l) == count_of(before, f, l),
    decreases before.len(),
{
    if at > 0 {
        assert(after[0] == before[0]);
        assert forall|j: int| 0 <= j < before.len() - 1 && j != at - 1 implies after.drop_first()[j]
            == #[trigger] before.drop_first()[j] by {
            assert(after[j + 1] == before[j + 1]);
        }
        lemma_count_updated(before.drop_first(), after.drop_first(), at - 1, f, l);
    } else {
        assert(after.drop_first() =~= before.drop_first()) by {
            assert forall|j: int| 0 <= j < before.len() - 1 implies after.drop_first()[j]
                == before.drop_first()[j] by {
                assert(after[j + 1] == before[j + 1]);
            }
        }
    }
}

/// A new entry at the end shows at its place, if it had none, and nowhere else.
proof fn lemma_count_pushed(before: Seq<SiteCount>, entry: SiteCount, f: Seq<char>, l: u32)
    ensures
        !(entry.file@ == f && entry.line == l) ==> count_of(before.push(entry), f, l) == count_of(
            before,
            f,
            l,
        ),
    decreases before.len(),
{
    let after = before.push(entry);
    if before.len() == 0 {
        assert(after.drop_first() =~= Seq::<SiteCount>::empty());
        assert(count_of(after.drop_first(), f, l) == 0);
    } else {
        assert(after[0] == before[0]);
        assert(after.drop_first() =~= before.drop_first().push(entry));
        lemma_count_pushed(before.drop_first(), entry, f, l);
    }
}

/// Count a pass of a place: how often it was passed before.
fn take_ordinal(counters: &mut Counters, file: &str, line: u32) -> (ordinal: u64)
    requires
        count_of(old(counters).sites@, file@, line) < u64::MAX,
    ensures
        ordinal == count_of(old(counters).sites@, file@, line),
        forall|f: Seq<char>, l: u32| #[trigger]
            count_of(final(counters).sites@, f, l) == if f == file@ && l == line {
                (ordinal + 1) as u64
            } else {
                count_of(old(counters).sites@, f, l)
            },
{
    let ghost before = counters.sites@;
    let mut i: usize = 0;
    while i < counters.sites.len()
        invariant
            i <= counters.sites@.len(),
            counters.sites@ == before,
            before == old(counters).sites@,
            count_of(before, file@, line) < u64::MAX,
            forall|j: int|
                0 <= j < i ==> !((#[trigger] before[j]).file@ == file@ && before[j].line == line),
        decreases counters.sites@.len() - i,
    {
        if counters.sites[i].line == line && same_text(&counters.sites[i].file, file) {
            proof {
                lemma_count_found(before, file@, line, i as int);
            }
            let ordinal: u64 = counters.sites[i].count;
            let entry = SiteCount { file: counters.sites[i].file.clone(), line, count: ordinal + 1 };
            counters.sites.set(i, entry);
            proof {
                let after = counters.sites@;
                lemma_count_found(after, file@, line, i as int);
                assert forall|f: Seq<char>, l: u32| #[trigger] count_of(after, f, l) == if f
                    == file@ && l == line {
                    (ordinal + 1) as u64
                } else {
                    count_of(before, f, l)
                } by {
                    if !(f == file@ && l == line) {
                        lemma_count_updated(before, after, i as int, f, l);
                    }
                }
            }
            return ordinal;
        }
        i = i + 1;
    }
    let entry = SiteCount { file: file.to_owned(), line, count: 1 };
    counters.sites.push(entry);
    proof {
        let after = counters.sites@;
        lemma_count_absent(before, file@, line);
        assert(after =~= before.push(entry));
        lemma_count_found(after, file@, line, before.len() as int);
        assert forall|f: Seq<char>, l: u32| #[trigger] count_of(after, f, l) == if f == file@ && l
            == line {
            1
        } else {
            count_of(before, f, l)
        } by {
            lemma_count_pushed(before, entry, f, l);
        }
    }
    0
}

// ---- the decision ----

/// Whether a place is one that ever misbehaves under a seed.
pub open spec fn active(config: BuggifyConfig, file: Seq<char>, line: u32) -> bool {
    site_hash(config.seed, encode_utf8(file), line, 0) % 100 < config.activation_percent
}

/// Whether a place misbehaves on a pass.
pub open spec fn fires(config: BuggifyConfig, file: Seq<char>, line: u32, ordinal: u64) -> bool {
    site_hash(config.seed ^ 0xa5a5_5a5a_d15c_a11e, encode_utf8(file), line, ordinal) % 100
        < config.fire_percent
}

/// The configuration that the variables of a run give where the chaos is on.
pub open spec fn config_of(env: BuggifyEnv) -> BuggifyConfig {
    BuggifyConfig {
        seed: env_number_or(text_opt(env.seed), u64::MAX as nat, 1) as u64,
        activation_percent: env_number_or(
            text_opt(env.activation_percent),
            u8::MAX as nat,
            25,
        ) as u8,
        fire_percent: env_number_or(text_opt(env.fire_percent), u8::MAX as nat, 25) as u8,
    }
}

/// Whether the code misbehaves at a place this time. Only places that ever
/// misbehave are counted.
pub fn buggify(env: &BuggifyEnv, counters: &mut Counters, file: &str, line: u32) -> (fire: bool)
    requires
        chaos_on(text_opt(env.enabled)) && active(config_of(*env), file@, line) ==> count_of(
            old(counters).sites@,
            file@,
            line,
        ) < u64::MAX,
    ensures
        !chaos_on(text_opt(env.enabled)) ==> !fire && *final(counters) == *old(counters),
        chaos_on(text_opt(env.enabled)) ==> buggify_rolls(
            config_of(*env),
            *old(counters),
            *final(counters),
            file@,
            line,
            fire,
        ),
{
    match BuggifyConfig::from_env(env) {
        Some(config) => roll(config, counters, file, line),
        None => false,
    }
}

/// How a place is rolled for under a configuration.
pub open spec fn buggify_rolls(
    config: BuggifyConfig,
    before: Counters,
    after: Counters,
    file: Seq<char>,
    line: u32,
    fire: bool,
) -> bool {
    let ordinal = count_of(before.sites@, file, line);
    if active(config, file, line) {
        &&& fire == fires(config, file, line, ordinal)
        &&& forall|f: Seq<char>, l: u32| #[trigger]
            count_of(after.sites@, f, l) == if f == file && l == line {
                (ordinal + 1) as u64
            } else {
                count_of(before.sites@, f, l)
            }
    } else {
        !fire && after == before
    }
}

/// Roll for a place under a configuration.
pub fn roll(config: BuggifyConfig, counters: &mut Counters, file: &str, line: u32) -> (fire: bool)
    requires
        active(config, file@, line) ==> count_of(old(counters).sites@, file@, line) < u64::MAX,
    ensures
        buggify_rolls(config, *old(counters), *final(counters), file@, line, fire),
{
    let activation_roll: u64 = callsite_hash(config.seed, file, line, 0) % 100;
    if activation_roll >= config.activation_percent as u64 {
        return false;
    }
    let ordinal: u64 = take_ordinal(counters, file, line);
    let fire_roll: u64 = callsite_hash(config.seed ^ 0xa5a5_5a5a_d15c_a11e, file, line, ordinal)
        % 100;
    fire_roll < config.fire_percent as u64
}

/// Two runs that start with the same counts decide alike: from the same
/// configuration, the same count of a place gives the same decision and the
/// same next count.
pub proof fn chaos_is_deterministic(
    config: BuggifyConfig,
    before_a: Counters,
    after_a: Counters,
    before_b: Counters,
    after_b: Counters,
    file: Seq<char>,
    line: u32,
    fire_a: bool,
    fire_b: bool,
)
    requires
        forall|f: Seq<char>, l: u32| #[trigger]
            count_of(before_a.sites@, f, l) == count_of(before_b.sites@, f, l),
        buggify_rolls(config, before_a, after_a, file, line, fire_a),
        buggify_rolls(config, before_b, after_b, file, line, fire_b),
    ensures
        fire_a == fire_b,
        forall|f: Seq<char>, l: u32| #[trigger]
            count_of(after_a.sites@, f, l) == count_of(after_b.sites@, f, l),
{
    assert(count_of(before_a.sites@, file, line) == count_of(before_b.sites@, file, line));
    assert forall|f: Seq<char>, l: u32| #[trigger]
        count_of(after_a.sites@, f, l) == count_of(after_b.sites@, f, l) by {
        assert(count_of(before_a.sites@, f, l) == count_of(before_b.sites@, f, l));
    }
}

/// The chaos is on where its variable is set to anything but `0` and the word `false`,
/// in whatever case its letters are.
pub proof fn chaos_is_on_unless_denied(value: Option<Seq<char>>)
    ensures
        chaos_on(value) <==> (value matches Some(v) && v != seq!['0'] && !(v.len() == 5 && (v[0]
            == 'f' || v[0] == 'F') && (v[1] == 'a' || v[1] == 'A') && (v[2] == 'l' || v[2] == 'L')
            && (v[3] == 's' || v[3] == 'S') && (v[4] == 'e' || v[4] == 'E'))),
{
    reveal_strlit("0");
    reveal_strlit("false");
    assert("0"@ =~= seq!['0']);
    if let Some(v) = value {
        let word = "false"@;
        assert(word =~= seq!['f', 'a', 'l', 's', 'e']);
        if lowered(v) == word {
            assert(lowered(v).len() == 5);
            assert(lowered(v)[0] == 'f' && lowered(v)[1] == 'a' && lowered(v)[2] == 'l' && lowered(
                v,
            )[3] == 's' && lowered(v)[4] == 'e');
        } else if v.len() == 5 && (v[0] == 'f' || v[0] == 'F') && (v[1] == 'a' || v[1] == 'A') && (
        v[2] == 'l' || v[2] == 'L') && (v[3] == 's' || v[3] == 'S') && (v[4] == 'e' || v[4] == 'E') {
            assert(lowered(v) =~= word);
        }
    }
}

/// Percentages bound the chaos: at zero nothing ever misbehaves, from a hundred on
/// everything always does, and what misbehaves does so too where neither percentage is
/// lower.
pub proof fn percentages_bound_the_chaos(
    low: BuggifyConfig,
    high: BuggifyConfig,
    before: Counters,
    after_low: Counters,
    after_high: Counters,
    file: Seq<char>,
    line: u32,
    fire_low: bool,
    fire_high: bool,
)
    requires
        low.seed == high.seed,
        low.activation_percent <= high.activation_percent,
        low.fire_percent <= high.fire_percent,
        buggify_rolls(low, before, after_low, file, line, fire_low),
        buggify_rolls(high, before, after_high, file, line, fire_high),
    ensures
        fire_low ==> fire_high,
        low.activation_percent == 0 || low.fire_percent == 0 ==> !fire_low,
        low.activation_percent >= 100 && low.fire_percent >= 100 ==> fire_low,
{
}

/// A pass of a place counts for that place and for no other, and only where the place
/// is one that ever misbehaves; what misbehaves was counted.
pub proof fn passes_are_counted(
    config: BuggifyConfig,
    before: Counters,
    after: Counters,
    file: Seq<char>,
    line: u32,
    fire: bool,
    other_file: Seq<char>,
    other_line: u32,
)
    requires
        buggify_rolls(config, before, after, file, line, fire),
        count_of(before.sites@, file, line) < u64::MAX,
    ensures
        fire ==> count_of(after.sites@, file, line) == count_of(before.sites@, file, line) + 1,
        count_of(after.sites@, file, line) <= count_of(before.sites@, file, line) + 1,
        other_file != file || other_line != line ==> count_of(after.sites@, other_file, other_line)
            == count_of(before.sites@, other_file, other_line),
        config.activation_percent == 0 ==> after == before,
        config.activation_percent >= 100 ==> count_of(after.sites@, file, line) == count_of(
            before.sites@,
            file,
            line,
        ) + 1,
{
}

// ---- scopes ----

/// A scope in which the chaos is on; it remembers what the variables were.
#[derive(Debug)]
pub struct ScopedBuggify {
    pub previous: BuggifyEnv,
}

impl ScopedBuggify {
    /// Turn the chaos on with a seed: the scope, and what the variables are to
    /// be. The percentages stay as they are. All counts are forgotten.
    pub fn new(previous: BuggifyEnv, seed: u64, counters: &mut Counters) -> (scope: (
        Self,
        BuggifyEnv,
    ))
        ensures
            final(counters).sites@.len() == 0,
            scope.0.previous == previous,
            text_opt(scope.1.enabled) == Some("1"@),
            text_opt(scope.1.seed) == Some(dec(seed as nat)),
            text_opt(scope.1.activation_percent) == text_opt(previous.activation_percent),
            text_opt(scope.1.fire_percent) == text_opt(previous.fire_percent),
    {
        let within = BuggifyEnv {
            enabled: Some("1".to_owned()),
            seed: Some(dec_text(seed as u128)),
            activation_percent: copy_value(&previous.activation_percent),
            fire_percent: copy_value(&previous.fire_percent),
        };
        reset(counters);
        (ScopedBuggify { previous }, within)
    }

    /// Leave the scope: what the variables are to be again. All counts are
    /// forgotten.
    pub fn restore(self, counters: &mut Counters) -> (env: BuggifyEnv)
        ensures
            env == self.previous,
            final(counters).sites@.len() == 0,
    {
        reset(counters);
        self.previous
    }
}

fn copy_value(value: &Option<String>) -> (copy: Option<String>)
    ensures
        text_opt(copy) == text_opt(*value),
{
    match value {
        Some(text) => Some(text.clone()),
        None => None,
    }
}

/// Within a scope the chaos is on, with the scope's seed.
pub proof fn scope_turns_chaos_on(seed: u64)
    ensures
        chaos_on(Some("1"@)),
        env_number_or(Some(dec(seed as nat)), u64::MAX as nat, 1) == seed,
{
    reveal_strlit("1");
    reveal_strlit("0");
    reveal_strlit("false");
    assert("1"@[0] != "0"@[0]);
    assert(lowered("1"@).len() == 1);
    crate::text::lemma_dec_parses(seed as nat, u64::MAX as nat);
}

/// The variables of a run give the seed and the two percentages; one that is unset
/// leaves its default.
pub proof fn chaos_settings_are_read(env: BuggifyEnv, seed: u64, percent: u8)
    ensures
        text_opt(env.seed) == Some(dec(seed as nat)) ==> config_of(env).seed == seed,
        text_opt(env.activation_percent) == Some(dec(percent as nat)) ==> config_of(
            env,
        ).activation_percent == percent,
        text_opt(env.fire_percent) == Some(dec(percent as nat)) ==> config_of(env).fire_percent
            == percent,
        env.seed is None ==> config_of(env).seed == 1,
        env.activation_percent is None ==> config_of(env).activation_percent == 25,
        env.fire_percent is None ==> config_of(env).fire_percent == 25,
{
    crate::text::lemma_dec_parses(seed as nat, u64::MAX as nat);
    crate::text::lemma_dec_parses(percent as nat, u8::MAX as nat);
}

/// What decides about a place never coincides for two seeds, for two lines of a file or
/// for two passes of a place, nor for two files that differ in their last letter.
pub proof fn rolls_are_apart(
    seed: u64,
    other_seed: u64,
    file: Seq<u8>,
    line: u32,
    other_line: u32,
    ordinal: u64,
    other_ordinal: u64,
    last: u8,
    other_last: u8,
)
    ensures
        seed != other_seed ==> site_hash(seed, file, line, ordinal) != site_hash(
            other_seed,
            file,
            line,
            ordinal,
        ),
        line != other_line ==> site_hash(seed, file, line, ordinal) != site_hash(
            seed,
            file,
            other_line,
            ordinal,
        ),
        ordinal != other_ordinal ==> site_hash(seed, file, line, ordinal) != site_hash(
            seed,
            file,
            line,
            other_ordinal,
        ),
        last != other_last ==> site_hash(seed, file.push(last), line, ordinal) != site_hash(
            seed,
            file.push(other_last),
            line,
            ordinal,
        ),
{
    let (k, m) = (0x9e37_79b9_7f4a_7c15u64, 0x94d0_49bb_1331_11ebu64);
    let (n, o) = (wrapped_product(ordinal, m), wrapped_product(other_ordinal, m));
    let (l, p) = (wrapped_product(line as u64, k), wrapped_product(other_line as u64, k));
    let start = seed ^ l;
    if seed != other_seed {
        lemma_xor_apart(seed, other_seed, l);
        lemma_folded_apart(seed ^ l, other_seed ^ l, file);
        lemma_xor_apart(folded(seed ^ l, file), folded(other_seed ^ l, file), n);
        lemma_mixed_apart(folded(seed ^ l, file) ^ n, folded(other_seed ^ l, file) ^ n);
    }
    if line != other_line {
        lemma_product_undone(line as u64, k, 0xf1de_83e1_9937_733d);
        lemma_product_undone(other_line as u64, k, 0xf1de_83e1_9937_733d);
        lemma_xor_apart(l, p, seed);
        assert(l ^ seed == seed ^ l) by (bit_vector);
        assert(p ^ seed == seed ^ p) by (bit_vector);
        lemma_folded_apart(seed ^ l, seed ^ p, file);
        lemma_xor_apart(folded(seed ^ l, file), folded(seed ^ p, file), n);
        lemma_mixed_apart(folded(seed ^ l, file) ^ n, folded(seed ^ p, file) ^ n);
    }
    if ordinal != other_ordinal {
        let f = folded(start, file);
        lemma_product_undone(ordinal, m, 0x3196_42b2_d24d_8ec3);
        lemma_product_undone(other_ordinal, m, 0x3196_42b2_d24d_8ec3);
        lemma_xor_apart(n, o, f);
        assert(n ^ f == f ^ n) by (bit_vector);
        assert(o ^ f == f ^ o) by (bit_vector);
        lemma_mixed_apart(f ^ n, f ^ o);
    }
    if last != other_last {
        let f = rotated(folded(start, file));
        let (a, b) = (last as u64, other_last as u64);
        lemma_xor_apart(a, b, f);
        assert(a ^ f == f ^ a) by (bit_vector);
        assert(b ^ f == f ^ b) by (bit_vector);
        lemma_product_undone(f ^ a, 0x517c_c1b7_2722_0a95, 0x2040_003d_7809_70bd);
        lemma_product_undone(f ^ b, 0x517c_c1b7_2722_0a95, 0x2040_003d_7809_70bd);
        assert(file.push(last).drop_last() =~= file);
        assert(file.push(other_last).drop_last() =~= file);
        let (c, d) = (folded(start, file.push(last)), folded(start, file.push(other_last)));
        lemma_xor_apart(c, d, n);
        lemma_mixed_apart(c ^ n, d ^ n);
    }
}

/// A product with an odd number is undone by a product with its inverse.
proof fn lemma_product_undone(x: u64, k: u64, inverse: u64)
    requires
        (k * inverse) % 0x1_0000_0000_0000_0000 == 1,
    ensures
        wrapped_product(wrapped_product(x, k), inverse) == x,
{
    let m = 0x1_0000_0000_0000_0000int;
    let (a, b, c) = (x as int, k as int, inverse as int);
    let p = (a * b) % m;
    vstd::arithmetic::div_mod::lemma_mod_bound(a * b, m);
    vstd::arithmetic::div_mod::lemma_mul_mod_noop_left(a * b, c, m);
    assert((a * b) * c == a * (b * c)) by (nonlinear_arith);
    vstd::arithmetic::div_mod::lemma_mul_mod_noop_right(a, b * c, m);
    assert(a * 1 == a);
    vstd::arithmetic::div_mod::lemma_small_mod(x as nat, m as nat);
}

proof fn lemma_xor_apart(a: u64, b: u64, c: u64)
    requires
        a != b,
    ensures
        a ^ c != b ^ c,
{
    assert(a != b ==> a ^ c != b ^ c) by (bit_vector);
}

proof fn lemma_folded_apart(a: u64, b: u64, file: Seq<u8>)
    requires
        a != b,
    ensures
        folded(a, file) != folded(b, file),
    decreases file.len(),
{
    if file.len() > 0 {
        lemma_folded_apart(a, b, file.drop_last());
        let (x, y) = (folded(a, file.drop_last()), folded(b, file.drop_last()));
        assert(x != y ==> ((x << 5) | (x >> 59)) != ((y << 5) | (y >> 59))) by (bit_vector);
        lemma_xor_apart(rotated(x), rotated(y), file.last() as u64);
        lemma_product_undone(
            rotated(x) ^ (file.last() as u64),
            0x517c_c1b7_2722_0a95,
            0x2040_003d_7809_70bd,
        );
        lemma_product_undone(
            rotated(y) ^ (file.last() as u64),
            0x517c_c1b7_2722_0a95,
            0x2040_003d_7809_70bd,
        );
    }
}

proof fn lemma_shifted_apart(a: u64, b: u64)
    requires
        a != b,
    ensures
        a ^ (a >> 33) != b ^ (b >> 33),
{
    assert(a != b ==> a ^ (a >> 33) != b ^ (b >> 33)) by (bit_vector);
}

proof fn lemma_mixed_apart(x: u64, y: u64)
    requires
        x != y,
    ensures
        mixed(x) != mixed(y),
{
    let (a, b) = (x ^ (x >> 33), y ^ (y >> 33));
    lemma_shifted_apart(x, y);
    lemma_product_undone(a, 0xff51_afd7_ed55_8ccd, 0x4f74_430c_22a5_4005);
    lemma_product_undone(b, 0xff51_afd7_ed55_8ccd, 0x4f74_430c_22a5_4005);
    let (c, d) = (
        wrapped_product(a, 0xff51_afd7_ed55_8ccd),
        wrapped_product(b, 0xff51_afd7_ed55_8ccd),
    );
    lemma_shifted_apart(c, d);
    let (e, f) = (c ^ (c >> 33), d ^ (d >> 33));
    lemma_product_undone(e, 0xc4ce_b9fe_1a85_ec53, 0x9cb4_b2f8_1293_37db);
    lemma_product_undone(f, 0xc4ce_b9fe_1a85_ec53, 0x9cb4_b2f8_1293_37db);
    lemma_shifted_apart(
        wrapped_product(e, 0xc4ce_b9fe_1a85_ec53),
        wrapped_product(f, 0xc4ce_b9fe_1a85_ec53),
    );
}

} // verus!
