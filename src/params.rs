//! Run configuration.
use vstd::prelude::*;

verus! {

/// The feature type kept from a gene-model source by default: `"gene"`.
pub open spec fn default_feature() -> Seq<char> {
    seq!['g', 'e', 'n', 'e']
}

pub const DEFAULT_SAMPLE_SIZE: usize = 200000;

pub const DEFAULT_MAPQ: u8 = 30;

/// Below this many reads the estimate is flagged as unreliable.
pub const SMALL_SAMPLE: usize = 1000;

/// The run's settings once defaults are filled in. Exactly one of `refgene`
/// (an interval-list source) and `gtf` (a gene-model source) is present.
pub struct ParsedParas {
    pub input_file: String,
    pub refgene: Option<String>,
    pub gtf: Option<String>,
    pub feature: String,
    pub sample_size: usize,
    pub mapq: u8,
}

/// Why a configuration was refused.
#[derive(Clone, Copy, Debug, PartialEq, Eq, Structural)]
pub enum ConfigError {
    /// Both annotation sources were given.
    BothSources,
    /// Neither annotation source was given.
    NoSource,
}

/// A sample size this small gives an unreliable estimate (a warning only).
pub fn is_small_sample(n: usize) -> (r: bool)
    ensures
        r == (n < SMALL_SAMPLE),
{
    n < SMALL_SAMPLE
}

impl ParsedParas {
    /// Fills in defaults (feature `"gene"`, sample size 200000, mapping
    /// quality 30) and checks that exactly one annotation source is given.
    pub fn resolve(
        input_file: String,
        refgene: Option<String>,
        gtf: Option<String>,
        feature: Option<String>,
        sample_size: Option<usize>,
        mapq: Option<u8>,
    ) -> (r: Result<ParsedParas, ConfigError>)
        ensures
            refgene is Some && gtf is Some <==> r == Err::<ParsedParas, ConfigError>(ConfigError::BothSources),
            refgene is None && gtf is None <==> r == Err::<ParsedParas, ConfigError>(ConfigError::NoSource),
            r matches Ok(p) ==> {
                &&& p.input_file@ == input_file@
                &&& p.refgene == refgene
                &&& p.gtf == gtf
                &&& p.feature@ == (match feature {
                    Some(f) => f@,
                    None => default_feature(),
                })
                &&& p.sample_size == (match sample_size {
                    Some(n) => n,
                    None => DEFAULT_SAMPLE_SIZE,
                })
                &&& p.mapq == (match mapq {
                    Some(m) => m,
                    None => DEFAULT_MAPQ,
                })
            },
    {
        if refgene.is_some() && gtf.is_some() {
            return Err(ConfigError::BothSources);
        }
        if refgene.is_none() && gtf.is_none() {
            return Err(ConfigError::NoSource);
        }
        let feature = match feature {
            Some(f) => f,
            None => String::from_str("gene"),
        };
        proof {
            reveal_strlit("gene");
        }
        let sample_size = match sample_size {
            Some(n) => n,
            None => DEFAULT_SAMPLE_SIZE,
        };
        let mapq = match mapq {
            Some(m) => m,
            None => DEFAULT_MAPQ,
        };
        Ok(ParsedParas { input_file, refgene, gtf, feature, sample_size, mapq })
    }
}

} // verus!
