//! The run's settings: defaults, values from a settings file, and values from
//! the command line, later ones overriding earlier ones.
use vstd::prelude::*;
use crate::engine::EngineConfig;

verus! {

/// The settings of one run.
///
/// `num_of_samples` gives, tier by tier, how many sample points a fitness
/// evaluation draws; `scale_factors` gives, tier by tier, the size of the
/// images in percent of their full size, smallest first.
#[derive(Clone, Debug)]
pub struct PanolutionConfig {
    pub input_path: String,
    pub max_iteration: u32,
    pub num_of_threads: usize,
    pub num_of_samples: Vec<u32>,
    pub scale_factors: Vec<u32>,
    pub num_of_islands: u32,
    pub population_size: u32,
    pub stagnation_limit: u32,
    pub max_mutation_rate: u32,
}

/// The values that a settings file may set; those it leaves out are `None`.
#[derive(Clone, Debug)]
pub struct FileConfig {
    pub input_path: Option<String>,
    pub max_iteration: Option<u32>,
}

/// Why the settings could not be put together.
#[derive(Clone, Copy, PartialEq, Eq, Structural, Debug)]
pub enum ConfigError {
    /// The maximum iteration given on the command line is not a decimal `u32`.
    BadMaxIteration,
}

/// The default input path, `./`.
pub open spec fn default_input_path() -> Seq<char> {
    seq!['.', '/']
}

/// `c` is the configuration that `default_config` gives.
pub open spec fn is_default(c: PanolutionConfig) -> bool {
    &&& c.input_path@ == default_input_path()
    &&& c.max_iteration == 1000
    &&& other_fields_default(c)
}

/// Every setting of `c` but the input path and the maximum iteration has its
/// default value.
pub open spec fn other_fields_default(c: PanolutionConfig) -> bool {
    &&& c.num_of_threads == 4
    &&& c.num_of_samples@ == seq![500u32, 2000, 5000]
    &&& c.scale_factors@ == seq![25u32, 50, 100]
    &&& c.num_of_islands == 8
    &&& c.population_size == 20
    &&& c.stagnation_limit == 50
    &&& c.max_mutation_rate == 5
}

/// The settings used where nothing else is given.
pub fn default_config() -> (r: PanolutionConfig)
    ensures
        is_default(r),
{
    let input_path = "./".to_owned();
    proof {
        reveal_strlit("./");
    }
    assert(input_path@ =~= default_input_path());
    let num_of_samples = vec![500u32, 2000, 5000];
    let scale_factors = vec![25u32, 50, 100];
    assert(num_of_samples@ =~= seq![500u32, 2000, 5000]);
    assert(scale_factors@ =~= seq![25u32, 50, 100]);
    PanolutionConfig {
        input_path,
        max_iteration: 1000,
        num_of_threads: 4,
        num_of_samples,
        scale_factors,
        num_of_islands: 8,
        population_size: 20,
        stagnation_limit: 50,
        max_mutation_rate: 5,
    }
}

pub open spec fn is_digit(c: char) -> bool {
    '0' <= c <= '9'
}

/// The value of the decimal digits `s`.
pub open spec fn digits_value(s: Seq<char>) -> int
    decreases s.len(),
{
    if s.len() == 0 {
        0
    } else {
        digits_value(s.drop_last()) * 10 + (s.last() as int - '0' as int)
    }
}

/// The digits of `s`, after one leading `+` if it has one.
pub open spec fn unsigned_digits(s: Seq<char>) -> Seq<char> {
    if s.len() > 0 && s[0] == '+' {
        s.subrange(1, s.len() as int)
    } else {
        s
    }
}

/// `s` read as a decimal `u32`: an optional `+`, then one digit or more,
/// of a value that fits.
pub open spec fn parse_u32_spec(s: Seq<char>) -> Option<u32> {
    let d = unsigned_digits(s);
    if d.len() > 0 && (forall|i: int| 0 <= i < d.len() ==> is_digit(#[trigger] d[i])) && digits_value(d)
        <= u32::MAX {
        Some(digits_value(d) as u32)
    } else {
        None
    }
}

proof fn lemma_digits_value_grows(d: Seq<char>, k: int)
    requires
        0 <= k <= d.len(),
        forall|i: int| 0 <= i < d.len() ==> is_digit(#[trigger] d[i]),
    ensures
        digits_value(d.subrange(0, k)) <= digits_value(d),
        0 <= digits_value(d.subrange(0, k)),
    decreases d.len() - k,
{
    if k < d.len() {
        let p = d.subrange(0, k + 1);
        assert(p.drop_last() =~= d.subrange(0, k));
        assert(is_digit(d[k]));
        lemma_digits_value_grows(d, k + 1);
    } else {
        assert(d.subrange(0, k) =~= d);
        lemma_digits_value_nonneg(d);
    }
}

proof fn lemma_digits_value_nonneg(d: Seq<char>)
    requires
        forall|i: int| 0 <= i < d.len() ==> is_digit(#[trigger] d[i]),
    ensures
        0 <= digits_value(d),
    decreases d.len(),
{
    if d.len() > 0 {
        let p = d.drop_last();
        assert forall|i: int| 0 <= i < p.len() implies is_digit(#[trigger] p[i]) by {
            assert(p[i] == d[i]);
        }
        lemma_digits_value_nonneg(p);
        assert(is_digit(d[d.len() - 1]));
    }
}

/// Reads `s` as a decimal `u32`, as `str::parse::<u32>` does: an optional
/// `+`, then one digit or more, of a value that fits.
pub fn parse_u32(s: &str) -> (r: Option<u32>)
    ensures
        r == parse_u32_spec(s@),
{
    let n = s.unicode_len();
    let start: usize = if n > 0 && s.get_char(0) == '+' { 1 } else { 0 };
    let ghost d = unsigned_digits(s@);
    assert(d =~= s@.subrange(start as int, n as int));
    if start == n {
        return None;
    }
    let mut value: u64 = 0;
    let mut i: usize = start;
    while i < n
        invariant
            n == s@.len(),
            start <= i <= n,
            d == s@.subrange(start as int, n as int),
            d == unsigned_digits(s@),
            d.len() > 0,
            forall|j: int| 0 <= j < i - start ==> is_digit(#[trigger] d[j]),
            value == digits_value(d.subrange(0, i - start)),
            value <= u32::MAX,
        decreases n - i,
    {
        let c = s.get_char(i);
        assert(c == d[i - start]);
        if c < '0' || c > '9' {
            assert(!is_digit(d[i - start]));
            assert(!(forall|j: int| 0 <= j < d.len() ==> is_digit(#[trigger] d[j])));
            return None;
        }
        let digit: u64 = ((c as u32) - ('0' as u32)) as u64;
        assert(d.subrange(0, i - start + 1).drop_last() =~= d.subrange(0, i - start));
        value = value * 10 + digit;
        i += 1;
        assert(value == digits_value(d.subrange(0, i - start)));
        if value > u32::MAX as u64 {
            proof {
                if forall|j: int| 0 <= j < d.len() ==> is_digit(#[trigger] d[j]) {
                    lemma_digits_value_grows(d, i - start);
                }
            }
            return None;
        }
    }
    assert(d.subrange(0, d.len() as int) =~= d);
    Some(value as u32)
}

/// Puts the settings together: the defaults, overridden by what the
/// settings file sets, overridden by what the command line gives.
pub fn process_config(file: Option<FileConfig>, input: Option<String>, max_iteration: Option<&str>) -> (r: Result<
    PanolutionConfig,
    ConfigError,
>)
    ensures
        max_iteration matches Some(m) && parse_u32_spec(m@) is None <==> r == Err::<
            PanolutionConfig,
            ConfigError,
        >(ConfigError::BadMaxIteration),
        r matches Ok(c) ==> {
            &&& c.input_path@ == (match input {
                Some(p) => p@,
                None => match file {
                    Some(f) => match f.input_path {
                        Some(p) => p@,
                        None => default_input_path(),
                    },
                    None => default_input_path(),
                },
            })
            &&& c.max_iteration == (match max_iteration {
                Some(m) => parse_u32_spec(m@).unwrap(),
                None => match file {
                    Some(f) => match f.max_iteration {
                        Some(v) => v,
                        None => 1000u32,
                    },
                    None => 1000u32,
                },
            })
            &&& other_fields_default(c)
        },
{
    let mut result = default_config();
    match file {
        Some(f) => {
            match f.input_path {
                Some(p) => {
                    result.input_path = p;
                },
                None => {},
            }
            match f.max_iteration {
                Some(v) => {
                    result.max_iteration = v;
                },
                None => {},
            }
        },
        None => {},
    }
    match input {
        Some(p) => {
            result.input_path = p;
        },
        None => {},
    }
    match max_iteration {
        Some(m) => {
            match parse_u32(m) {
                Some(v) => {
                    result.max_iteration = v;
                },
                None => {
                    return Err(ConfigError::BadMaxIteration);
                },
            }
        },
        None => {},
    }
    Ok(result)
}

/// The engine parameters that `c` sets.
pub open spec fn engine_config_of(c: PanolutionConfig) -> EngineConfig {
    EngineConfig {
        num_of_islands: c.num_of_islands,
        population_size: c.population_size,
        max_iteration: c.max_iteration,
        stagnation_limit: c.stagnation_limit,
        max_rate: c.max_mutation_rate,
    }
}

/// The engine parameters that `config` sets.
pub fn engine_config(config: &PanolutionConfig) -> (r: EngineConfig)
    ensures
        r == engine_config_of(*config),
{
    EngineConfig {
        num_of_islands: config.num_of_islands,
        population_size: config.population_size,
        max_iteration: config.max_iteration,
        stagnation_limit: config.stagnation_limit,
        max_rate: config.max_mutation_rate,
    }
}

} // verus!
